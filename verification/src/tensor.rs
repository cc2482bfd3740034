//! Bookkeeping for a tensor that may have copies on several devices.
//!
//! A [`TensorBuffer`] records the shape of a tensor, on which devices a copy
//! of it is resident, which of those copies are up to date, and which device
//! holds the authoritative copy. The memory itself is held by the embedding
//! application; every method here says what has to happen to it.

use crate::error::Error;
use crate::shape::{countable, desc_size, element_count, is_countable};
use vstd::prelude::*;

verus! {

/// A place where tensor memory can live.
#[derive(Clone, Copy, Debug, PartialEq, Eq, Structural)]
pub enum Device {
    /// Host memory, readable by the CPU.
    Host,
    /// Memory of the accelerator with the given number.
    Accelerator(usize),
}

/// How a device answered a request for memory.
#[derive(Clone, Copy, Debug, PartialEq, Eq, Structural)]
pub enum Allocation {
    /// The device handed out the memory.
    Granted,
    /// The device had no memory to give.
    Refused,
}

/// One resident copy of a tensor.
#[derive(Clone, Copy, Debug, PartialEq, Eq, Structural)]
pub struct MemoryCopy {
    /// Where the copy lives.
    pub device: Device,
    /// Whether it holds what the authoritative copy holds.
    pub current: bool,
}

/// What a [`TensorBuffer`] stands for.
pub struct TensorView {
    /// The dimensions of the tensor.
    pub shape: Seq<usize>,
    /// The device that holds the authoritative copy.
    pub latest: Device,
    /// The devices on which a copy is resident.
    pub resident: Set<Device>,
    /// The devices whose copy is up to date.
    pub current: Set<Device>,
}

impl TensorView {
    /// The authoritative copy is up to date, and only resident copies are.
    pub open spec fn wf(self) -> bool {
        &&& countable(self.shape)
        &&& self.current.contains(self.latest)
        &&& self.current.subset_of(self.resident)
    }

    /// A tensor of shape `shape` with a single copy, on `device`.
    pub open spec fn fresh(device: Device, shape: Seq<usize>) -> TensorView {
        TensorView { shape, latest: device, resident: set![device], current: set![device] }
    }

    /// The tensor after the authoritative copy was copied to `device`.
    pub open spec fn synchronized(self, device: Device) -> TensorView {
        TensorView {
            resident: self.resident.insert(device),
            current: self.current.insert(device),
            ..self
        }
    }

    /// The tensor after it was written on `device`: that copy is
    /// authoritative now, and every other copy is out of date.
    pub open spec fn written(self, device: Device) -> TensorView {
        TensorView {
            latest: device,
            resident: self.resident.insert(device),
            current: set![device],
            ..self
        }
    }

    /// Nothing was written to the tensor between `self` and `later`: it
    /// has its shape and its authoritative copy still, and no copy went out
    /// of date. Copies may have been brought up to date in between.
    pub open spec fn unwritten_in(self, later: TensorView) -> bool {
        &&& later.shape == self.shape
        &&& later.latest == self.latest
        &&& self.resident.subset_of(later.resident)
        &&& self.current.subset_of(later.current)
    }

    /// The tensor after it was given the new shape `shape`: only the
    /// authoritative copy is left, with new memory.
    pub open spec fn resized(self, shape: Seq<usize>) -> TensorView {
        TensorView::fresh(self.latest, shape)
    }
}

/// Bringing a copy up to date that is up to date already changes nothing.
pub proof fn lemma_synchronized_current(tensor: TensorView, device: Device)
    requires
        tensor.wf(),
        tensor.current.contains(device),
    ensures
        tensor.synchronized(device) == tensor,
{
    assert(tensor.resident.insert(device) =~= tensor.resident);
    assert(tensor.current.insert(device) =~= tensor.current);
}

/// Bookkeeping for one tensor: its shape and its copies.
#[derive(Debug)]
pub struct TensorBuffer {
    desc: Vec<usize>,
    latest: Device,
    copies: Vec<MemoryCopy>,
}

/// Copies a descriptor.
pub fn copy_dims(dims: &Vec<usize>) -> (copy: Vec<usize>)
    ensures
        copy@ == dims@,
{
    let mut copy: Vec<usize> = Vec::new();
    let mut i: usize = 0;
    while i < dims.len()
        invariant
            0 <= i <= dims@.len(),
            copy@ == dims@.take(i as int),
        decreases dims@.len() - i,
    {
        copy.push(dims[i]);
        i += 1;
    }
    copy
}

/// Whether two descriptors name the same dimensions.
pub fn same_dims(a: &Vec<usize>, b: &Vec<usize>) -> (same: bool)
    ensures
        same == (a@ == b@),
{
    if a.len() != b.len() {
        return false;
    }
    let mut i: usize = 0;
    while i < a.len()
        invariant
            0 <= i <= a@.len(),
            a@.len() == b@.len(),
            forall|k: int| 0 <= k < i ==> a@[k] == b@[k],
        decreases a@.len() - i,
    {
        if a[i] != b[i] {
            return false;
        }
        i += 1;
    }
    assert(a@ =~= b@);
    true
}

/// Some copy in `copies` lives on `device`.
pub open spec fn lists(copies: Seq<MemoryCopy>, device: Device) -> bool {
    exists|i: int| 0 <= i < copies.len() && #[trigger] copies[i].device == device
}

/// Some up-to-date copy in `copies` lives on `device`.
pub open spec fn lists_current(copies: Seq<MemoryCopy>, device: Device) -> bool {
    exists|i: int|
        0 <= i < copies.len() && #[trigger] copies[i].device == device && copies[i].current
}

/// No device has two copies in `copies`.
pub open spec fn one_copy_each(copies: Seq<MemoryCopy>) -> bool {
    forall|i: int, j: int| 0 <= i < j < copies.len() ==> copies[i].device != copies[j].device
}

/// What a list of copies holds once one more copy is listed.
proof fn lemma_lists_push(copies: Seq<MemoryCopy>, copy: MemoryCopy)
    ensures
        forall|d: Device| lists(copies.push(copy), d) == (lists(copies, d) || d == copy.device),
        forall|d: Device|
            lists_current(copies.push(copy), d) == (lists_current(copies, d) || (d == copy.device
                && copy.current)),
{
    let longer = copies.push(copy);
    assert forall|d: Device| lists(longer, d) == (lists(copies, d) || d == copy.device) by {
        if lists(copies, d) {
            let k = choose|k: int| 0 <= k < copies.len() && #[trigger] copies[k].device == d;
            assert(longer[k].device == d);
        }
        if d == copy.device {
            assert(longer[copies.len() as int].device == d);
        }
        if lists(longer, d) && d != copy.device {
            let k = choose|k: int| 0 <= k < longer.len() && #[trigger] longer[k].device == d;
            assert(copies[k].device == d);
        }
    }
    assert forall|d: Device|
        lists_current(longer, d) == (lists_current(copies, d) || (d == copy.device
            && copy.current)) by {
        if lists_current(copies, d) {
            let k = choose|k: int|
                0 <= k < copies.len() && #[trigger] copies[k].device == d && copies[k].current;
            assert(longer[k].device == d && longer[k].current);
        }
        if d == copy.device && copy.current {
            assert(longer[copies.len() as int].device == d);
        }
        if lists_current(longer, d) && !(d == copy.device && copy.current) {
            let k = choose|k: int|
                0 <= k < longer.len() && #[trigger] longer[k].device == d && longer[k].current;
            assert(copies[k].device == d && copies[k].current);
        }
    }
}

/// What a list of copies holds once the copy at `i` is marked up to date.
proof fn lemma_lists_refresh(copies: Seq<MemoryCopy>, i: int)
    requires
        0 <= i < copies.len(),
    ensures
        ({
            let fresh = copies.update(i, MemoryCopy { device: copies[i].device, current: true });
            &&& forall|d: Device| lists(fresh, d) == lists(copies, d)
            &&& forall|d: Device|
                lists_current(fresh, d) == (lists_current(copies, d) || d == copies[i].device)
            &&& one_copy_each(copies) ==> one_copy_each(fresh)
        }),
{
    let fresh = copies.update(i, MemoryCopy { device: copies[i].device, current: true });
    assert forall|d: Device| lists(fresh, d) == lists(copies, d) by {
        if lists(copies, d) {
            let k = choose|k: int| 0 <= k < copies.len() && #[trigger] copies[k].device == d;
            assert(fresh[k].device == d);
        }
        if lists(fresh, d) {
            let k = choose|k: int| 0 <= k < fresh.len() && #[trigger] fresh[k].device == d;
            assert(copies[k].device == d);
        }
    }
    assert forall|d: Device|
        lists_current(fresh, d) == (lists_current(copies, d) || d == copies[i].device) by {
        if lists_current(copies, d) {
            let k = choose|k: int|
                0 <= k < copies.len() && #[trigger] copies[k].device == d && copies[k].current;
            assert(fresh[k].device == d && fresh[k].current);
        }
        if d == copies[i].device {
            assert(fresh[i].device == d && fresh[i].current);
        }
        if lists_current(fresh, d) && d != copies[i].device {
            let k = choose|k: int|
                0 <= k < fresh.len() && #[trigger] fresh[k].device == d && fresh[k].current;
            assert(copies[k].device == d && copies[k].current);
        }
    }
    if one_copy_each(copies) {
        assert forall|a: int, b: int| 0 <= a < b < fresh.len() implies fresh[a].device
            != fresh[b].device by {
            assert(copies[a].device != copies[b].device);
        }
    }
}

/// What a list of copies holds once every copy but those on `device` is
/// marked out of date, and those on `device` up to date.
proof fn lemma_lists_written(copies: Seq<MemoryCopy>, marked: Seq<MemoryCopy>, device: Device)
    requires
        marked.len() == copies.len(),
        forall|k: int| 0 <= k < copies.len() ==> (#[trigger] marked[k]).device == copies[k].device,
        forall|k: int|
            0 <= k < copies.len() ==> (#[trigger] marked[k]).current == (copies[k].device
                == device),
        lists(copies, device),
    ensures
        forall|d: Device| lists(marked, d) == lists(copies, d),
        forall|d: Device| lists_current(marked, d) == (d == device),
        one_copy_each(copies) ==> one_copy_each(marked),
{
    assert forall|d: Device| lists(marked, d) == lists(copies, d) by {
        if lists(copies, d) {
            let k = choose|k: int| 0 <= k < copies.len() && #[trigger] copies[k].device == d;
            assert(marked[k].device == d);
        }
        if lists(marked, d) {
            let k = choose|k: int| 0 <= k < marked.len() && #[trigger] marked[k].device == d;
            assert(copies[k].device == d);
        }
    }
    assert forall|d: Device| lists_current(marked, d) == (d == device) by {
        if d == device {
            let k = choose|k: int| 0 <= k < copies.len() && #[trigger] copies[k].device == d;
            assert(marked[k].device == d && marked[k].current);
        }
        if lists_current(marked, d) {
            let k = choose|k: int|
                0 <= k < marked.len() && #[trigger] marked[k].device == d && marked[k].current;
            assert(copies[k].device == device);
        }
    }
    if one_copy_each(copies) {
        assert forall|a: int, b: int| 0 <= a < b < marked.len() implies marked[a].device
            != marked[b].device by {
            assert(copies[a].device != copies[b].device);
        }
    }
}

impl View for TensorBuffer {
    type V = TensorView;

    closed spec fn view(&self) -> TensorView {
        TensorView {
            shape: self.desc@,
            latest: self.latest,
            resident: Set::new(|d: Device| self.holds(d)),
            current: Set::new(|d: Device| self.holds_current(d)),
        }
    }
}

impl TensorBuffer {
    /// Some copy lives on `device`.
    closed spec fn holds(&self, device: Device) -> bool {
        lists(self.copies@, device)
    }

    /// Some up-to-date copy lives on `device`.
    closed spec fn holds_current(&self, device: Device) -> bool {
        lists_current(self.copies@, device)
    }

    /// The bookkeeping is consistent: the element count can be computed,
    /// no device is listed twice, and the authoritative copy is up to date.
    pub closed spec fn wf(&self) -> bool {
        &&& countable(self.desc@)
        &&& one_copy_each(self.copies@)
        &&& self.holds_current(self.latest)
    }

    /// A consistent buffer stands for a consistent tensor.
    pub proof fn lemma_view_wf(&self)
        requires
            self.wf(),
        ensures
            self@.wf(),
    {
    }

    /// Describes a new tensor of shape `desc` whose only copy lives on
    /// `device`.
    ///
    /// Fails with `ShapeMismatch` when the element count of `desc` does not
    /// fit a machine word.
    pub fn new(device: Device, desc: &Vec<usize>) -> (r: Result<TensorBuffer, Error>)
        ensures
            r is Ok <==> countable(desc@),
            r is Ok ==> r->Ok_0.wf() && r->Ok_0@ == TensorView::fresh(device, desc@),
            r is Err ==> r->Err_0 == Error::ShapeMismatch,
    {
        if !is_countable(desc) {
            return Err(Error::ShapeMismatch);
        }
        let mut copies: Vec<MemoryCopy> = Vec::new();
        copies.push(MemoryCopy { device, current: true });
        let buffer = TensorBuffer { desc: copy_dims(desc), latest: device, copies };
        proof {
            assert(buffer.copies@[0].device == device);
            assert(buffer@.resident =~= set![device]);
            assert(buffer@.current =~= set![device]);
        }
        Ok(buffer)
    }

    /// The descriptor of the tensor.
    pub fn desc(&self) -> (desc: &Vec<usize>)
        ensures
            desc@ == self@.shape,
    {
        &self.desc
    }

    /// The device that holds the authoritative copy.
    pub fn latest_device(&self) -> (device: Device)
        ensures
            device == self@.latest,
    {
        self.latest
    }

    /// The number of elements that the tensor holds.
    pub fn capacity(&self) -> (n: usize)
        requires
            self.wf(),
        ensures
            n == element_count(self@.shape),
    {
        desc_size(&self.desc)
    }

    /// Where the copy on `device` is listed, if there is one.
    fn find(&self, device: Device) -> (at: Option<usize>)
        ensures
            at is Some <==> self.holds(device),
            at is Some ==> at->0 < self.copies@.len() && self.copies@[at->0 as int].device
                == device,
    {
        let mut i: usize = 0;
        while i < self.copies.len()
            invariant
                0 <= i <= self.copies@.len(),
                forall|k: int| 0 <= k < i ==> self.copies@[k].device != device,
            decreases self.copies@.len() - i,
        {
            if self.copies[i].device == device {
                return Some(i);
            }
            i += 1;
        }
        None
    }

    /// Whether a copy of the tensor is resident on `device`.
    pub fn resident(&self, device: Device) -> (yes: bool)
        ensures
            yes == self@.resident.contains(device),
    {
        self.find(device).is_some()
    }

    /// Whether the copy on `device` is up to date.
    pub fn current(&self, device: Device) -> (yes: bool)
        requires
            self.wf(),
        ensures
            yes == self@.current.contains(device),
    {
        match self.find(device) {
            Some(i) => self.copies[i].current,
            None => false,
        }
    }

    /// Brings the copy on `device` up to date.
    ///
    /// Nothing happens when that copy is up to date already. Otherwise the
    /// authoritative copy has to be copied to `device`, and the result names
    /// the device to copy from. When no copy is resident on `device`, memory
    /// is needed first, and `allocation` says whether the device gave it: if
    /// it did not, the call fails with `DeviceUnavailable` and changes
    /// nothing.
    pub fn synchronize(&mut self, device: Device, allocation: Allocation) -> (r: Result<
        Option<Device>,
        Error,
    >)
        requires
            old(self).wf(),
        ensures
            final(self).wf(),
            match r {
                Ok(None) => old(self)@.current.contains(device) && final(self)@ == old(self)@,
                Ok(Some(source)) => {
                    &&& !old(self)@.current.contains(device)
                    &&& old(self)@.resident.contains(device) || allocation == Allocation::Granted
                    &&& source == old(self)@.latest
                    &&& final(self)@ == old(self)@.synchronized(device)
                },
                Err(e) => {
                    &&& e == Error::DeviceUnavailable
                    &&& !old(self)@.resident.contains(device)
                    &&& allocation == Allocation::Refused
                    &&& final(self)@ == old(self)@
                },
            },
    {
        match self.find(device) {
            Some(i) => {
                if self.copies[i].current {
                    Ok(None)
                } else {
                    proof {
                        lemma_lists_refresh(self.copies@, i as int);
                    }
                    self.copies.set(i, MemoryCopy { device, current: true });
                    proof {
                        assert(self@.resident =~= old(self)@.resident.insert(device));
                        assert(self@.current =~= old(self)@.current.insert(device));
                    }
                    Ok(Some(self.latest))
                }
            },
            None => {
                match allocation {
                    Allocation::Refused => Err(Error::DeviceUnavailable),
                    Allocation::Granted => {
                        let copy = MemoryCopy { device, current: true };
                        proof {
                            lemma_lists_push(self.copies@, copy);
                        }
                        self.copies.push(copy);
                        proof {
                            assert(self@.resident =~= old(self)@.resident.insert(device));
                            assert(self@.current =~= old(self)@.current.insert(device));
                        }
                        Ok(Some(self.latest))
                    },
                }
            },
        }
    }

    /// Records a write to the tensor through its copy on `device`.
    ///
    /// That copy becomes the authoritative one and every other copy goes
    /// out of date. When no copy is resident on `device`, memory is needed
    /// first, and `allocation` says whether the device gave it: if it did
    /// not, the call fails with `DeviceUnavailable` and changes nothing.
    pub fn write(&mut self, device: Device, allocation: Allocation) -> (r: Result<(), Error>)
        requires
            old(self).wf(),
        ensures
            final(self).wf(),
            match r {
                Ok(_) => {
                    &&& old(self)@.resident.contains(device) || allocation == Allocation::Granted
                    &&& final(self)@ == old(self)@.written(device)
                },
                Err(e) => {
                    &&& e == Error::DeviceUnavailable
                    &&& !old(self)@.resident.contains(device)
                    &&& allocation == Allocation::Refused
                    &&& final(self)@ == old(self)@
                },
            },
    {
        if self.find(device).is_none() {
            match allocation {
                Allocation::Refused => {
                    return Err(Error::DeviceUnavailable);
                },
                Allocation::Granted => {
                    let copy = MemoryCopy { device, current: false };
                    proof {
                        lemma_lists_push(self.copies@, copy);
                    }
                    self.copies.push(copy);
                },
            }
        }
        let ghost listed = self.copies@;
        let mut i: usize = 0;
        while i < self.copies.len()
            invariant
                0 <= i <= self.copies@.len(),
                self.copies@.len() == listed.len(),
                self.desc == old(self).desc,
                old(self).wf(),
                one_copy_each(listed),
                forall|d: Device|
                    lists(listed, d) == (lists(old(self).copies@, d) || d == device),
                forall|k: int|
                    0 <= k < listed.len() ==> (#[trigger] self.copies@[k]).device
                        == listed[k].device,
                forall|k: int|
                    0 <= k < i ==> (#[trigger] self.copies@[k]).current == (listed[k].device
                        == device),
            decreases self.copies@.len() - i,
        {
            let at = self.copies[i].device;
            self.copies.set(i, MemoryCopy { device: at, current: at == device });
            i += 1;
        }
        self.latest = device;
        proof {
            lemma_lists_written(listed, self.copies@, device);
            assert(self@.resident =~= old(self)@.resident.insert(device));
            assert(self@.current =~= set![device]);
        }
        Ok(())
    }

    /// Gives the tensor the shape `desc`.
    ///
    /// Returns `false`, and changes nothing, when the tensor has that shape
    /// already: no memory is touched then. Returns `true` when the shape
    /// changed: the authoritative copy needs new memory of the new size and
    /// every other copy is dropped. Fails with `ShapeMismatch`, and changes
    /// nothing, when the element count of `desc` does not fit a machine
    /// word.
    pub fn resize(&mut self, desc: &Vec<usize>) -> (r: Result<bool, Error>)
        requires
            old(self).wf(),
        ensures
            final(self).wf(),
            match r {
                Ok(changed) => {
                    &&& countable(desc@)
                    &&& changed == (desc@ != old(self)@.shape)
                    &&& final(self)@ == if changed {
                        old(self)@.resized(desc@)
                    } else {
                        old(self)@
                    }
                },
                Err(e) => {
                    &&& e == Error::ShapeMismatch
                    &&& !countable(desc@)
                    &&& final(self)@ == old(self)@
                },
            },
    {
        if same_dims(&self.desc, desc) {
            return Ok(false);
        }
        if !is_countable(desc) {
            return Err(Error::ShapeMismatch);
        }
        let mut copies: Vec<MemoryCopy> = Vec::new();
        copies.push(MemoryCopy { device: self.latest, current: true });
        self.desc = copy_dims(desc);
        self.copies = copies;
        proof {
            assert(self.copies@[0].device == self.latest);
            assert(self@.resident =~= set![self.latest]);
            assert(self@.current =~= set![self.latest]);
        }
        Ok(true)
    }
}

} // verus!
