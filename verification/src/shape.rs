//! Arithmetic on tensor descriptors: rank, element count and slices of it.

use collenchyma::tensor::ITensorDesc;
use vstd::prelude::*;

verus! {

/// The number of elements that the dimensions `dims` span: their product,
/// and 1 for a scalar (no dimension at all).
pub open spec fn element_count(dims: Seq<usize>) -> nat
    decreases dims.len(),
{
    if dims.len() == 0 {
        1
    } else {
        element_count(dims.drop_last()) * (dims.last() as nat)
    }
}

/// Every running product of `dims`, taken from the first dimension on, fits
/// a machine word. This is what multiplying the dimensions one after the
/// other needs in order not to overflow.
pub open spec fn countable(dims: Seq<usize>) -> bool {
    forall|k: int| 0 <= k <= dims.len() ==> #[trigger] element_count(dims.take(k)) <= usize::MAX
}

/// Where a tensor is cut by `axis`: just behind that dimension, or at the
/// end for an axis the tensor does not have.
pub open spec fn cut_behind(dims: Seq<usize>, axis: usize) -> int {
    if axis < dims.len() {
        axis + 1
    } else {
        dims.len() as int
    }
}

/// The dimensions up to and including `axis`.
pub open spec fn leading_dims(dims: Seq<usize>, axis: usize) -> Seq<usize> {
    dims.take(cut_behind(dims, axis))
}

/// The dimensions behind `axis`.
pub open spec fn trailing_dims(dims: Seq<usize>, axis: usize) -> Seq<usize> {
    dims.skip(cut_behind(dims, axis))
}

/// Extending a descriptor by one dimension multiplies its element count.
pub proof fn lemma_element_count_push(dims: Seq<usize>, d: usize)
    ensures
        element_count(dims.push(d)) == element_count(dims) * (d as nat),
{
    assert(dims.push(d).drop_last() =~= dims);
}

/// `ITensorDesc::rank` of collenchyma, as implemented for `Vec<usize>`:
/// the number of dimensions.
#[verifier::external_body]
pub(crate) fn desc_rank(desc: &Vec<usize>) -> (rank: usize)
    ensures
        rank == desc@.len(),
{
    ITensorDesc::rank(desc)
}

/// `ITensorDesc::size` of collenchyma, as implemented for `Vec<usize>`: 1
/// for rank 0, else the dimensions multiplied one after the other, starting
/// from the first. The multiplication is a plain `*`, so the running
/// products must fit.
#[verifier::external_body]
pub(crate) fn desc_size(desc: &Vec<usize>) -> (size: usize)
    requires
        countable(desc@),
    ensures
        size == element_count(desc@),
{
    ITensorDesc::size(desc)
}

/// `ITensorDesc::dims` of collenchyma, as implemented for `Vec<usize>`:
/// the descriptor itself.
#[verifier::external_body]
pub(crate) fn desc_dims(desc: &Vec<usize>) -> (dims: &Vec<usize>)
    ensures
        dims@ == desc@,
{
    ITensorDesc::dims(desc)
}

/// Multiplies the dimensions `dims[from..to]` one after the other.
///
/// Returns the product when every running product fits a machine word, and
/// `None` as soon as one does not.
pub fn product_of(dims: &Vec<usize>, from: usize, to: usize) -> (product: Option<usize>)
    requires
        from <= to <= dims@.len(),
    ensures
        product is Some <==> countable(dims@.subrange(from as int, to as int)),
        product is Some ==> product->0 == element_count(dims@.subrange(from as int, to as int)),
{
    let ghost part = dims@.subrange(from as int, to as int);
    let mut acc: usize = 1;
    let mut i: usize = from;
    while i < to
        invariant
            from <= i <= to <= dims@.len(),
            part == dims@.subrange(from as int, to as int),
            acc == element_count(part.take(i - from)),
            forall|k: int|
                0 <= k <= i - from ==> #[trigger] element_count(part.take(k)) <= usize::MAX,
        decreases to - i,
    {
        let ghost k = (i - from) as int;
        proof {
            assert(part.take(k + 1) =~= part.take(k).push(dims@[i as int]));
            lemma_element_count_push(part.take(k), dims@[i as int]);
        }
        match acc.checked_mul(dims[i]) {
            Some(next) => {
                acc = next;
            },
            None => {
                return None;
            },
        }
        i += 1;
    }
    proof {
        assert(part.take(to - from) =~= part);
    }
    Some(acc)
}

/// Whether the element count of `dims` can be computed without overflow.
pub fn is_countable(dims: &Vec<usize>) -> (ok: bool)
    ensures
        ok == countable(dims@),
{
    assert(dims@.subrange(0, dims@.len() as int) =~= dims@);
    product_of(dims, 0, dims.len()).is_some()
}

} // verus!
