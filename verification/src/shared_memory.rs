//! Blobs: the values that flow between layers, each with its gradient.

use crate::error::Error;
use crate::plan::{Factor, Kernel, Part};
use crate::shape::{countable, desc_dims, desc_rank, element_count};
use crate::tensor::{Allocation, Device, TensorBuffer, TensorView};
use vstd::pervasive::unreached;
use vstd::prelude::*;
use vstd::string::StringExecFns;

verus! {

/// What a [`Blob`] stands for.
pub struct BlobView {
    /// The values.
    pub data: TensorView,
    /// The gradient accumulated for the values.
    pub diff: TensorView,
}

impl BlobView {
    /// Both tensors are consistent and have the same shape.
    pub open spec fn wf(self) -> bool {
        &&& self.data.wf()
        &&& self.diff.wf()
        &&& self.data.shape == self.diff.shape
    }

    /// One of the two tensors.
    pub open spec fn part(self, part: Part) -> TensorView {
        match part {
            Part::Data => self.data,
            Part::Diff => self.diff,
        }
    }

    /// The blob with one of its two tensors replaced.
    pub open spec fn with_part(self, part: Part, tensor: TensorView) -> BlobView {
        match part {
            Part::Data => BlobView { data: tensor, ..self },
            Part::Diff => BlobView { diff: tensor, ..self },
        }
    }

    /// The blob after it was asked to take the shape `shape`: as it was if
    /// it had that shape already, and else with both tensors resized.
    pub open spec fn reshaped(self, shape: Seq<usize>) -> BlobView {
        if self.data.shape == shape {
            self
        } else {
            BlobView { data: self.data.resized(shape), diff: self.diff.resized(shape) }
        }
    }
}

/// Asking a blob twice for the same shape is the same as asking once, and
/// the second time no memory is touched: the blob has the shape already.
pub proof fn lemma_reshape_idempotent(blob: BlobView, shape: Seq<usize>)
    ensures
        blob.reshaped(shape).data.shape == shape,
        blob.reshaped(shape).reshaped(shape) == blob.reshaped(shape),
{
}

/// A tensor of values together with a tensor of the same shape for their
/// gradient.
#[derive(Debug)]
pub struct Blob {
    data: TensorBuffer,
    diff: TensorBuffer,
}

/// The decimal digit for `d`.
pub open spec fn digit(d: nat) -> char {
    if d == 0 {
        '0'
    } else if d == 1 {
        '1'
    } else if d == 2 {
        '2'
    } else if d == 3 {
        '3'
    } else if d == 4 {
        '4'
    } else if d == 5 {
        '5'
    } else if d == 6 {
        '6'
    } else if d == 7 {
        '7'
    } else if d == 8 {
        '8'
    } else {
        '9'
    }
}

/// The decimal digits of `n`, most significant first.
pub open spec fn decimal(n: nat) -> Seq<char>
    decreases n,
{
    if n < 10 {
        seq![digit(n)]
    } else {
        decimal(n / 10).push(digit(n % 10))
    }
}

/// Each dimension in decimal, followed by a blank.
pub open spec fn dims_text(dims: Seq<usize>) -> Seq<char>
    decreases dims.len(),
{
    if dims.len() == 0 {
        Seq::empty()
    } else {
        dims_text(dims.drop_last()) + decimal(dims.last() as nat) + seq![' ']
    }
}

/// How a shape is written out: the dimensions, then the rank in brackets,
/// as in `1 30 30 (3)`.
pub open spec fn shape_text(dims: Seq<usize>) -> Seq<char> {
    dims_text(dims) + seq!['('] + decimal(dims.len()) + seq![')']
}

/// `ToString::to_string` of std for `usize`: the number in decimal, without
/// sign, padding or separators.
#[verifier::external_body]
fn decimal_string(n: usize) -> (text: String)
    ensures
        text@ == decimal(n as nat),
{
    n.to_string()
}

impl View for Blob {
    type V = BlobView;

    closed spec fn view(&self) -> BlobView {
        BlobView { data: self.data@, diff: self.diff@ }
    }
}

impl Blob {
    /// Both buffers are consistent and have the same shape.
    pub closed spec fn wf(&self) -> bool {
        &&& self.data.wf()
        &&& self.diff.wf()
        &&& self.data@.shape == self.diff@.shape
    }

    /// The buffer of the values.
    pub closed spec fn data_buffer(&self) -> TensorBuffer {
        self.data
    }

    /// The buffer of the gradient.
    pub closed spec fn diff_buffer(&self) -> TensorBuffer {
        self.diff
    }

    /// A consistent blob stands for a consistent pair of tensors, and its
    /// view is the view of its two buffers.
    pub proof fn lemma_view_wf(&self)
        ensures
            self@.data == self.data_buffer()@,
            self@.diff == self.diff_buffer()@,
            self.wf() <==> self.data_buffer().wf() && self.diff_buffer().wf() && self@.data.shape
                == self@.diff.shape,
            self.wf() ==> self@.wf(),
    {
        if self.wf() {
            self.data.lemma_view_wf();
            self.diff.lemma_view_wf();
        }
    }

    /// Makes a blob of `data` by giving it a gradient of the same shape,
    /// whose only copy lives where the authoritative copy of `data` lives.
    pub fn from_data(data: TensorBuffer) -> (blob: Blob)
        requires
            data.wf(),
        ensures
            blob.wf(),
            blob@.data == data@,
            blob@.diff == TensorView::fresh(data@.latest, data@.shape),
    {
        proof {
            data.lemma_view_wf();
        }
        let diff = match TensorBuffer::new(data.latest_device(), data.desc()) {
            Ok(diff) => diff,
            Err(_) => unreached(),
        };
        Blob { data, diff }
    }

    /// Writes the shape out: every dimension followed by a blank, then the
    /// rank in brackets.
    pub fn shape_string(&self) -> (text: String)
        ensures
            text@ == shape_text(self@.data.shape),
    {
        let desc = self.data.desc();
        let dims = desc_dims(desc);
        let mut text = String::from_str("");
        proof {
            reveal_strlit("");
            reveal_strlit(" ");
            reveal_strlit("(");
            reveal_strlit(")");
        }
        let mut i: usize = 0;
        while i < dims.len()
            invariant
                0 <= i <= dims@.len(),
                text@ == dims_text(dims@.take(i as int)),
                " "@ == seq![' '],
            decreases dims@.len() - i,
        {
            let number = decimal_string(dims[i]);
            text.append(number.as_str());
            text.append(" ");
            proof {
                assert(dims@.take(i + 1).drop_last() =~= dims@.take(i as int));
            }
            i += 1;
        }
        proof {
            assert(dims@.take(dims@.len() as int) =~= dims@);
        }
        let rank = decimal_string(desc_rank(desc));
        text.append("(");
        text.append(rank.as_str());
        text.append(")");
        text
    }

    /// The shape of the blob.
    pub fn shape(&self) -> (dims: &Vec<usize>)
        ensures
            dims@ == self@.data.shape,
    {
        desc_dims(self.data.desc())
    }

    /// The number of elements in each of the two buffers.
    pub fn size(&self) -> (n: usize)
        requires
            self.wf(),
        ensures
            n == element_count(self@.data.shape),
    {
        self.data.capacity()
    }

    /// The buffer of the values.
    pub fn data(&self) -> (buffer: &TensorBuffer)
        ensures
            *buffer == self.data_buffer(),
            buffer@ == self@.data,
            self.wf() ==> buffer.wf(),
    {
        &self.data
    }

    /// The buffer of the values, to be changed in place. The blob stays
    /// consistent as long as the buffer does and keeps its shape.
    pub fn mut_data(&mut self) -> (buffer: &mut TensorBuffer)
        ensures
            *buffer == old(self).data_buffer(),
            final(self).data_buffer() == *final(buffer),
            final(self).diff_buffer() == old(self).diff_buffer(),
            buffer@ == old(self)@.data,
            final(self)@ == (BlobView { data: final(buffer)@, diff: old(self)@.diff }),
            old(self).wf() ==> buffer.wf(),
            old(self).wf() ==> (final(self).wf() <==> final(buffer).wf() && final(buffer)@.shape
                == buffer@.shape),
    {
        &mut self.data
    }

    /// The buffer of the gradient.
    pub fn diff(&self) -> (buffer: &TensorBuffer)
        ensures
            *buffer == self.diff_buffer(),
            buffer@ == self@.diff,
            self.wf() ==> buffer.wf(),
    {
        &self.diff
    }

    /// The buffer of the gradient, to be changed in place. The blob stays
    /// consistent as long as the buffer does and keeps its shape.
    pub fn mut_diff(&mut self) -> (buffer: &mut TensorBuffer)
        ensures
            *buffer == old(self).diff_buffer(),
            final(self).diff_buffer() == *final(buffer),
            final(self).data_buffer() == old(self).data_buffer(),
            buffer@ == old(self)@.diff,
            final(self)@ == (BlobView { data: old(self)@.data, diff: final(buffer)@ }),
            old(self).wf() ==> buffer.wf(),
            old(self).wf() ==> (final(self).wf() <==> final(buffer).wf() && final(buffer)@.shape
                == buffer@.shape),
    {
        &mut self.diff
    }

    /// Gives both buffers the shape `desc`.
    ///
    /// Returns `false`, and changes nothing, when the blob has that shape
    /// already. Returns `true` when the shape changed: both buffers then
    /// need new memory. Fails with `ShapeMismatch`, and changes nothing,
    /// when the element count of `desc` does not fit a machine word.
    pub fn resize(&mut self, desc: &Vec<usize>) -> (r: Result<bool, Error>)
        requires
            old(self).wf(),
        ensures
            final(self).wf(),
            match r {
                Ok(changed) => {
                    &&& countable(desc@)
                    &&& changed == (desc@ != old(self)@.data.shape)
                    &&& final(self)@ == old(self)@.reshaped(desc@)
                },
                Err(e) => {
                    &&& e == Error::ShapeMismatch
                    &&& !countable(desc@)
                    &&& final(self)@ == old(self)@
                },
            },
    {
        match self.data.resize(desc) {
            Ok(_) => {},
            Err(e) => {
                return Err(e);
            },
        }
        match self.diff.resize(desc) {
            Ok(changed) => Ok(changed),
            Err(_) => unreached(),
        }
    }

    /// Plans the step `data := data - diff` on `device` and records that
    /// the values were written there.
    ///
    /// The kernel reads both buffers on `device`, so both copies there must
    /// be up to date: otherwise the call fails with
    /// `BackendOperationFailed` and changes nothing. The gradient is left
    /// as it is.
    pub fn apply_diff(&mut self, device: Device) -> (r: Result<Kernel<Part>, Error>)
        requires
            old(self).wf(),
        ensures
            final(self).wf(),
            r is Ok <==> {
                &&& old(self)@.data.current.contains(device)
                &&& old(self)@.diff.current.contains(device)
            },
            r is Ok ==> r->Ok_0 == (Kernel::ScaledAccumulate {
                factor: Factor::MinusOne,
                x: Part::Diff,
                y: Part::Data,
            }) && final(self)@ == (BlobView {
                data: old(self)@.data.written(device),
                diff: old(self)@.diff,
            }),
            r is Err ==> r->Err_0 == Error::BackendOperationFailed && final(self)@ == old(self)@,
    {
        if !self.data.current(device) || !self.diff.current(device) {
            return Err(Error::BackendOperationFailed);
        }
        proof {
            self.data.lemma_view_wf();
        }
        match self.data.write(device, Allocation::Refused) {
            Ok(_) => {},
            Err(_) => unreached(),
        }
        Ok(Kernel::ScaledAccumulate { factor: Factor::MinusOne, x: Part::Diff, y: Part::Data })
    }

    /// Plans the sum of the squares of the gradient on `device`: the dot
    /// product of the gradient with itself, written to a one-element tensor
    /// of the caller.
    ///
    /// Fails with `BackendOperationFailed` when the copy of the gradient on
    /// `device` is not up to date.
    pub fn sumsq_diff(&self, device: Device) -> (r: Result<Kernel<Part>, Error>)
        requires
            self.wf(),
        ensures
            r is Ok <==> self@.diff.current.contains(device),
            r is Ok ==> r->Ok_0 == (Kernel::DotProduct { x: Part::Diff, y: Part::Diff }),
            r is Err ==> r->Err_0 == Error::BackendOperationFailed,
    {
        if !self.diff.current(device) {
            return Err(Error::BackendOperationFailed);
        }
        Ok(Kernel::DotProduct { x: Part::Diff, y: Part::Diff })
    }

    /// Plans the weight-decay step `diff := diff + decay * data` on
    /// `device`, with a decay that the caller supplies, and records that
    /// the gradient was written there.
    ///
    /// Both copies on `device` must be up to date: otherwise the call fails
    /// with `BackendOperationFailed` and changes nothing. The values are
    /// left as they are.
    pub fn regularize_l2(&mut self, device: Device) -> (r: Result<Kernel<Part>, Error>)
        requires
            old(self).wf(),
        ensures
            final(self).wf(),
            r is Ok <==> {
                &&& old(self)@.data.current.contains(device)
                &&& old(self)@.diff.current.contains(device)
            },
            r is Ok ==> r->Ok_0 == (Kernel::ScaledAccumulate {
                factor: Factor::Given,
                x: Part::Data,
                y: Part::Diff,
            }) && final(self)@ == (BlobView {
                data: old(self)@.data,
                diff: old(self)@.diff.written(device),
            }),
            r is Err ==> r->Err_0 == Error::BackendOperationFailed && final(self)@ == old(self)@,
    {
        if !self.data.current(device) || !self.diff.current(device) {
            return Err(Error::BackendOperationFailed);
        }
        proof {
            self.diff.lemma_view_wf();
        }
        match self.diff.write(device, Allocation::Refused) {
            Ok(_) => {},
            Err(_) => unreached(),
        }
        Ok(Kernel::ScaledAccumulate { factor: Factor::Given, x: Part::Data, y: Part::Diff })
    }

    /// Brings the copy of one of the two buffers on `device` up to date;
    /// see [`TensorBuffer::synchronize`].
    pub fn synchronize(&mut self, part: Part, device: Device, allocation: Allocation) -> (r: Result<
        Option<Device>,
        Error,
    >)
        requires
            old(self).wf(),
        ensures
            final(self).wf(),
            match r {
                Ok(None) => old(self)@.part(part).current.contains(device) && final(self)@ == old(
                    self,
                )@,
                Ok(Some(source)) => {
                    &&& !old(self)@.part(part).current.contains(device)
                    &&& old(self)@.part(part).resident.contains(device) || allocation
                        == Allocation::Granted
                    &&& source == old(self)@.part(part).latest
                    &&& final(self)@ == old(self)@.with_part(
                        part,
                        old(self)@.part(part).synchronized(device),
                    )
                },
                Err(e) => {
                    &&& e == Error::DeviceUnavailable
                    &&& !old(self)@.part(part).resident.contains(device)
                    &&& allocation == Allocation::Refused
                    &&& final(self)@ == old(self)@
                },
            },
    {
        match part {
            Part::Data => self.data.synchronize(device, allocation),
            Part::Diff => self.diff.synchronize(device, allocation),
        }
    }

    /// Records a write to one of the two buffers through its copy on
    /// `device`; see [`TensorBuffer::write`].
    pub fn write(&mut self, part: Part, device: Device, allocation: Allocation) -> (r: Result<
        (),
        Error,
    >)
        requires
            old(self).wf(),
        ensures
            final(self).wf(),
            match r {
                Ok(_) => {
                    &&& old(self)@.part(part).resident.contains(device) || allocation
                        == Allocation::Granted
                    &&& final(self)@ == old(self)@.with_part(
                        part,
                        old(self)@.part(part).written(device),
                    )
                },
                Err(e) => {
                    &&& e == Error::DeviceUnavailable
                    &&& !old(self)@.part(part).resident.contains(device)
                    &&& allocation == Allocation::Refused
                    &&& final(self)@ == old(self)@
                },
            },
    {
        match part {
            Part::Data => self.data.write(device, allocation),
            Part::Diff => self.diff.write(device, allocation),
        }
    }
}

} // verus!
