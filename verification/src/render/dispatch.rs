//! Tensors by where they are computed.
//!
//! A tensor carries the backend that it belongs to, and whether gradients are
//! tracked. The functions here take the one that is expected out of a tensor,
//! or make a tensor of it.

use vstd::prelude::*;

verus! {

/// What a tensor is for a backend: numbers with a fraction, whole numbers, or
/// numbers with a fraction whose gradients are tracked.
#[derive(Debug)]
pub enum BackendTensor<F, I, A> {
    Float(F),
    Int(I),
    Autodiff(A),
}

/// Where a tensor is computed.
#[derive(Debug)]
pub enum TensorKind<F, I, A> {
    /// On the graphics card.
    Wgpu(BackendTensor<F, I, A>),
    /// Where the tensor inside is, with gradients.
    Autodiff(Box<TensorKind<F, I, A>>),
    /// Elsewhere.
    Other,
}

/// What is kept for gradients while a result is computed.
#[derive(Clone, Copy, Debug, PartialEq, Eq, Structural)]
pub enum CheckpointingStrategy {
    Balanced,
    NoCheckpointing,
}

/// A tensor.
#[derive(Debug)]
pub struct DispatchTensor<F, I, A> {
    pub kind: TensorKind<F, I, A>,
    /// None for a tensor without gradients.
    pub checkpointing: Option<CheckpointingStrategy>,
}

impl<F, I, A> TensorKind<F, I, A> {
    /// The kind without gradients.
    pub open spec fn detached(self) -> TensorKind<F, I, A> {
        match self {
            TensorKind::Autodiff(inner) => *inner,
            other => other,
        }
    }

    /// The numbers with a fraction on the graphics card, if it holds such.
    pub open spec fn fractions(self) -> Option<F> {
        match self {
            TensorKind::Wgpu(BackendTensor::Float(t)) => Some(t),
            _ => None,
        }
    }

    /// The whole numbers on the graphics card, if it holds such.
    pub open spec fn whole(self) -> Option<I> {
        match self {
            TensorKind::Wgpu(BackendTensor::Int(t)) => Some(t),
            _ => None,
        }
    }

    /// The tracked numbers on the graphics card, if it holds such.
    pub open spec fn with_gradients(self) -> Option<A> {
        match self {
            TensorKind::Autodiff(inner) => match *inner {
                TensorKind::Wgpu(BackendTensor::Autodiff(t)) => Some(t),
                _ => None,
            },
            _ => None,
        }
    }

    fn detach(self) -> (r: TensorKind<F, I, A>)
        ensures
            r == self.detached(),
    {
        match self {
            TensorKind::Autodiff(inner) => *inner,
            other => other,
        }
    }
}

/// Take the numbers with a fraction out of a tensor on the graphics card.
pub fn unwrap_wgpu_float<F, I, A>(t: DispatchTensor<F, I, A>) -> (r: F)
    requires
        t.kind.fractions() is Some,
    ensures
        t.kind.fractions() == Some(r),
{
    match t.kind {
        TensorKind::Wgpu(BackendTensor::Float(t)) => t,
        _ => vstd::pervasive::unreached(),
    }
}

/// Take the whole numbers out of a tensor on the graphics card.
pub fn unwrap_wgpu_int<F, I, A>(t: DispatchTensor<F, I, A>) -> (r: I)
    requires
        t.kind.whole() is Some,
    ensures
        t.kind.whole() == Some(r),
{
    match t.kind {
        TensorKind::Wgpu(BackendTensor::Int(t)) => t,
        _ => vstd::pervasive::unreached(),
    }
}

/// A tensor on the graphics card without gradients.
pub fn wrap_wgpu_float<F, I, A>(t: F) -> (r: DispatchTensor<F, I, A>)
    ensures
        r.kind.fractions() == Some(t),
        r.checkpointing is None,
{
    DispatchTensor { kind: TensorKind::Wgpu(BackendTensor::Float(t)), checkpointing: None }
}

/// A tensor of whole numbers on the graphics card.
pub fn wrap_wgpu_int<F, I, A>(t: I) -> (r: DispatchTensor<F, I, A>)
    ensures
        r.kind.whole() == Some(t),
        r.checkpointing is None,
{
    DispatchTensor { kind: TensorKind::Wgpu(BackendTensor::Int(t)), checkpointing: None }
}

/// Take the numbers whose gradients are tracked out of a tensor on the graphics
/// card.
pub fn unwrap_ad_wgpu_float<F, I, A>(t: DispatchTensor<F, I, A>) -> (r: A)
    requires
        t.kind.with_gradients() is Some,
    ensures
        t.kind.with_gradients() == Some(r),
{
    match t.kind {
        TensorKind::Autodiff(inner) => match *inner {
            TensorKind::Wgpu(BackendTensor::Autodiff(t)) => t,
            _ => vstd::pervasive::unreached(),
        },
        _ => vstd::pervasive::unreached(),
    }
}

/// Take the whole numbers out of a tensor on the graphics card, with gradients
/// or without: those of whole numbers are never tracked.
pub fn unwrap_ad_wgpu_int<F, I, A>(t: DispatchTensor<F, I, A>) -> (r: I)
    requires
        t.kind.detached().whole() is Some,
    ensures
        t.kind.detached().whole() == Some(r),
{
    match t.kind.detach() {
        TensorKind::Wgpu(BackendTensor::Int(t)) => t,
        _ => vstd::pervasive::unreached(),
    }
}

/// A tensor on the graphics card whose gradients are tracked, without keeping
/// anything for them.
pub fn wrap_ad_wgpu_float<F, I, A>(t: A) -> (r: DispatchTensor<F, I, A>)
    ensures
        r.kind.with_gradients() == Some(t),
        r.checkpointing == Some(CheckpointingStrategy::NoCheckpointing),
{
    DispatchTensor {
        kind: TensorKind::Autodiff(Box::new(TensorKind::Wgpu(BackendTensor::Autodiff(t)))),
        checkpointing: Some(CheckpointingStrategy::NoCheckpointing),
    }
}

/// The tensor without gradients, and without a sign that there were any.
pub fn detach_autodiff<F, I, A>(t: DispatchTensor<F, I, A>) -> (r: DispatchTensor<F, I, A>)
    ensures
        r.kind == t.kind.detached(),
        r.checkpointing is None,
{
    DispatchTensor { kind: t.kind.detach(), checkpointing: None }
}

/// The same for a tensor of whole numbers.
pub fn detach_autodiff_int<F, I, A>(t: DispatchTensor<F, I, A>) -> (r: DispatchTensor<F, I, A>)
    ensures
        r.kind == t.kind.detached(),
        r.checkpointing is None,
{
    DispatchTensor { kind: t.kind.detach(), checkpointing: None }
}

/// The buffer of a tensor on the graphics card. `resolve` waits for what is
/// still to be computed.
pub fn resolve_to_cube_float<F, I, A, C, S: Fn(F) -> C>(
    tensor: DispatchTensor<F, I, A>,
    resolve: &S,
) -> (r: C)
    requires
        tensor.kind.fractions() is Some,
        call_requires(*resolve, (tensor.kind.fractions()->0,)),
    ensures
        call_ensures(*resolve, (tensor.kind.fractions()->0,), r),
{
    let float: F = unwrap_wgpu_float(tensor);
    resolve(float)
}

/// What is taken out of a tensor is what it was made of.
pub proof fn law_unwrapping_undoes_wrapping<F, I, A>(
    t: DispatchTensor<F, I, A>,
    wrapped: F,
    unwrapped: F,
    wrapped_whole: I,
    unwrapped_whole: I,
    wrapped_tracked: A,
    unwrapped_tracked: A,
)
    ensures
        t.kind.fractions() == Some(wrapped) && t.kind.fractions() == Some(unwrapped) ==> unwrapped
            == wrapped,
        t.kind.whole() == Some(wrapped_whole) && t.kind.whole() == Some(unwrapped_whole)
            ==> unwrapped_whole == wrapped_whole,
        t.kind.with_gradients() == Some(wrapped_tracked) && t.kind.with_gradients() == Some(
            unwrapped_tracked,
        ) ==> unwrapped_tracked == wrapped_tracked,
{
}

/// A tensor of whole numbers is the same with gradients and without.
pub proof fn law_whole_numbers_are_not_tracked<F, I, A>(t: DispatchTensor<F, I, A>)
    requires
        t.kind.whole() is Some,
    ensures
        t.kind.detached().whole() == t.kind.whole(),
{
}

/// A tensor without gradients is not changed by taking them away, and one whose
/// gradients are tracked loses them.
pub proof fn law_detaching_takes_gradients<F, I, A>(t: DispatchTensor<F, I, A>)
    ensures
        !(t.kind is Autodiff) ==> t.kind.detached() == t.kind,
        t.kind.with_gradients() is Some ==> t.kind.detached().with_gradients() is None,
{
}

} // verus!
