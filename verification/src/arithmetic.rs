//! The arithmetic on samples and levels, supplied from outside as functions.
//!
//! The analyzer decides what is computed from what; the sums, products and
//! logarithms themselves are handed to it. `C` is the type of complex numbers.

use vstd::prelude::*;

verus! {

/// `f` can be called on everything and gives the same result for the same argument.
pub open spec fn functional1<A, R, F: Fn(A) -> R>(f: F) -> bool {
    &&& forall|a: A| #[trigger] f.requires((a,))
    &&& forall|a: A, r: R, s: R| #[trigger]
        f.ensures((a,), r) && #[trigger] f.ensures((a,), s) ==> r == s
}

/// What `f` gives for `a`.
pub open spec fn image1<A, R, F: Fn(A) -> R>(f: F, a: A) -> R {
    choose|r: R| f.ensures((a,), r)
}

/// `f` can be called on everything and gives the same result for the same arguments.
pub open spec fn functional2<A, B, R, F: Fn(A, B) -> R>(f: F) -> bool {
    &&& forall|a: A, b: B| #[trigger] f.requires((a, b))
    &&& forall|a: A, b: B, r: R, s: R| #[trigger]
        f.ensures((a, b), r) && #[trigger] f.ensures((a, b), s) ==> r == s
}

/// What `f` gives for `a` and `b`.
pub open spec fn image2<A, B, R, F: Fn(A, B) -> R>(f: F, a: A, b: B) -> R {
    choose|r: R| f.ensures((a, b), r)
}

/// `f` can be called on everything and gives the same result for the same arguments.
pub open spec fn functional3<A, B, D, R, F: Fn(A, B, D) -> R>(f: F) -> bool {
    &&& forall|a: A, b: B, d: D| #[trigger] f.requires((a, b, d))
    &&& forall|a: A, b: B, d: D, r: R, s: R| #[trigger]
        f.ensures((a, b, d), r) && #[trigger] f.ensures((a, b, d), s) ==> r == s
}

/// What `f` gives for `a`, `b` and `d`.
pub open spec fn image3<A, B, D, R, F: Fn(A, B, D) -> R>(f: F, a: A, b: B, d: D) -> R {
    choose|r: R| f.ensures((a, b, d), r)
}

/// `f` can be called on every list and turns lists with the same items into lists with the
/// same items, of the length that it was given.
pub open spec fn transforms<A, R, F: Fn(Vec<A>) -> Vec<R>>(f: F) -> bool {
    &&& forall|v: Vec<A>| #[trigger] f.requires((v,))
    &&& forall|v: Vec<A>, w: Vec<A>, r: Vec<R>, s: Vec<R>| #[trigger]
        f.ensures((v,), r) && #[trigger] f.ensures((w,), s) && v@ == w@ ==> r@ == s@
    &&& forall|v: Vec<A>, r: Vec<R>| #[trigger] f.ensures((v,), r) ==> r@.len() == v@.len()
}

/// `r` is what `f` gives for a list with the items `items`.
pub open spec fn transformed_to<A, R, F: Fn(Vec<A>) -> Vec<R>>(
    f: F,
    items: Seq<A>,
    r: Vec<R>,
) -> bool {
    exists|v: Vec<A>| v@ == items && #[trigger] f.ensures((v,), r)
}

/// The items that `f` gives for a list with the items `items`.
pub open spec fn transform_of<A, R, F: Fn(Vec<A>) -> Vec<R>>(f: F, items: Seq<A>) -> Seq<R> {
    (choose|r: Vec<R>| transformed_to(f, items, r))@
}

/// The arithmetic of the analyzer.
pub struct Arithmetic<C, HalfSum, HalfDifference, Transform, Accumulate, Level, Smooth> {
    /// The complex zero.
    pub zero: C,
    /// Half the sum of two samples.
    pub half_sum: HalfSum,
    /// Half the difference of two samples.
    pub half_difference: HalfDifference,
    /// The discrete Fourier transform of a list of samples.
    pub transform: Transform,
    /// A sum, plus the product of two factors.
    pub accumulate: Accumulate,
    /// The level in decibels of a complex number divided by the transform's length.
    pub level: Level,
    /// A level moved towards another by a fraction of their distance.
    pub smooth: Smooth,
}

/// The arithmetic of the analyzer, as mathematical functions.
#[verifier::reject_recursive_types(C)]
pub struct ArithmeticView<C> {
    pub zero: C,
    pub half_sum: spec_fn(u32, u32) -> u32,
    pub half_difference: spec_fn(u32, u32) -> u32,
    pub transform: spec_fn(Seq<u32>) -> Seq<C>,
    pub accumulate: spec_fn(C, C, C) -> C,
    pub level: spec_fn(C, usize) -> u32,
    pub smooth: spec_fn(u32, u32, u32) -> u32,
}

impl<C, HalfSum, HalfDifference, Transform, Accumulate, Level, Smooth> View for Arithmetic<
    C,
    HalfSum,
    HalfDifference,
    Transform,
    Accumulate,
    Level,
    Smooth,
> where
    HalfSum: Fn(u32, u32) -> u32,
    HalfDifference: Fn(u32, u32) -> u32,
    Transform: Fn(Vec<u32>) -> Vec<C>,
    Accumulate: Fn(C, C, C) -> C,
    Level: Fn(C, usize) -> u32,
    Smooth: Fn(u32, u32, u32) -> u32,
 {
    type V = ArithmeticView<C>;

    open spec fn view(&self) -> ArithmeticView<C> {
        ArithmeticView {
            zero: self.zero,
            half_sum: |l: u32, r: u32| image2(self.half_sum, l, r),
            half_difference: |l: u32, r: u32| image2(self.half_difference, l, r),
            transform: |items: Seq<u32>| transform_of(self.transform, items),
            accumulate: |s: C, x: C, y: C| image3(self.accumulate, s, x, y),
            level: |x: C, n: usize| image2(self.level, x, n),
            smooth: |from: u32, to: u32, fraction: u32| image3(self.smooth, from, to, fraction),
        }
    }
}

impl<C, HalfSum, HalfDifference, Transform, Accumulate, Level, Smooth> Arithmetic<
    C,
    HalfSum,
    HalfDifference,
    Transform,
    Accumulate,
    Level,
    Smooth,
> where
    C: Copy,
    HalfSum: Fn(u32, u32) -> u32,
    HalfDifference: Fn(u32, u32) -> u32,
    Transform: Fn(Vec<u32>) -> Vec<C>,
    Accumulate: Fn(C, C, C) -> C,
    Level: Fn(C, usize) -> u32,
    Smooth: Fn(u32, u32, u32) -> u32,
 {
    /// Every operation is a function, defined everywhere.
    pub open spec fn wf(&self) -> bool {
        &&& functional2(self.half_sum)
        &&& functional2(self.half_difference)
        &&& transforms(self.transform)
        &&& functional3(self.accumulate)
        &&& functional2(self.level)
        &&& functional3(self.smooth)
    }

    pub(crate) fn half_sum_of(&self, l: u32, r: u32) -> (s: u32)
        requires
            self.wf(),
        ensures
            s == (self@.half_sum)(l, r),
    {
        (self.half_sum)(l, r)
    }

    pub(crate) fn half_difference_of(&self, l: u32, r: u32) -> (s: u32)
        requires
            self.wf(),
        ensures
            s == (self@.half_difference)(l, r),
    {
        (self.half_difference)(l, r)
    }

    pub(crate) fn transform_of(&self, samples: Vec<u32>) -> (lines: Vec<C>)
        requires
            self.wf(),
        ensures
            lines@ == (self@.transform)(samples@),
            lines@.len() == samples@.len(),
    {
        let ghost items = samples@;
        let lines = (self.transform)(samples);
        assert(transformed_to(self.transform, items, lines));
        lines
    }

    pub(crate) fn accumulated(&self, sum: C, x: C, y: C) -> (s: C)
        requires
            self.wf(),
        ensures
            s == (self@.accumulate)(sum, x, y),
    {
        (self.accumulate)(sum, x, y)
    }

    pub(crate) fn level_of(&self, x: C, n: usize) -> (db: u32)
        requires
            self.wf(),
        ensures
            db == (self@.level)(x, n),
    {
        (self.level)(x, n)
    }

    pub(crate) fn smoothed(&self, from: u32, to: u32, fraction: u32) -> (db: u32)
        requires
            self.wf(),
        ensures
            db == (self@.smooth)(from, to, fraction),
    {
        (self.smooth)(from, to, fraction)
    }
}

/// The arithmetic with which kernels are made.
pub struct KernelArithmetic<C, WindowLen, Tone, Transform, Norm, Threshold, Conjugate> {
    /// The complex zero.
    pub zero: C,
    /// The samples that a window takes to resolve a frequency.
    pub window_len: WindowLen,
    /// A sample of the windowed tone of a frequency: which one, and in a window how long.
    pub tone: Tone,
    /// The discrete Fourier transform.
    pub transform: Transform,
    /// The absolute value of a complex number.
    pub norm: Norm,
    /// What a line of a transform must exceed to count, given the largest line.
    pub threshold: Threshold,
    /// The complex conjugate.
    pub conjugate: Conjugate,
}

/// The arithmetic with which kernels are made, as mathematical functions.
#[verifier::reject_recursive_types(C)]
pub struct KernelArithmeticView<C> {
    pub zero: C,
    pub window_len: spec_fn(u32) -> usize,
    pub tone: spec_fn(u32, usize, usize) -> C,
    pub transform: spec_fn(Seq<C>) -> Seq<C>,
    pub norm: spec_fn(C) -> u32,
    pub threshold: spec_fn(u32) -> u32,
    pub conjugate: spec_fn(C) -> C,
}

impl<C, WindowLen, Tone, Transform, Norm, Threshold, Conjugate> View for KernelArithmetic<
    C,
    WindowLen,
    Tone,
    Transform,
    Norm,
    Threshold,
    Conjugate,
> where
    WindowLen: Fn(u32) -> usize,
    Tone: Fn(u32, usize, usize) -> C,
    Transform: Fn(Vec<C>) -> Vec<C>,
    Norm: Fn(C) -> u32,
    Threshold: Fn(u32) -> u32,
    Conjugate: Fn(C) -> C,
 {
    type V = KernelArithmeticView<C>;

    open spec fn view(&self) -> KernelArithmeticView<C> {
        KernelArithmeticView {
            zero: self.zero,
            window_len: |freq: u32| image1(self.window_len, freq),
            tone: |freq: u32, n: usize, len: usize| image3(self.tone, freq, n, len),
            transform: |items: Seq<C>| transform_of(self.transform, items),
            norm: |x: C| image1(self.norm, x),
            threshold: |largest: u32| image1(self.threshold, largest),
            conjugate: |x: C| image1(self.conjugate, x),
        }
    }
}

impl<C, WindowLen, Tone, Transform, Norm, Threshold, Conjugate> KernelArithmetic<
    C,
    WindowLen,
    Tone,
    Transform,
    Norm,
    Threshold,
    Conjugate,
> where
    C: Copy,
    WindowLen: Fn(u32) -> usize,
    Tone: Fn(u32, usize, usize) -> C,
    Transform: Fn(Vec<C>) -> Vec<C>,
    Norm: Fn(C) -> u32,
    Threshold: Fn(u32) -> u32,
    Conjugate: Fn(C) -> C,
 {
    /// Every operation is a function, defined everywhere.
    pub open spec fn wf(&self) -> bool {
        &&& functional1(self.window_len)
        &&& functional3(self.tone)
        &&& transforms(self.transform)
        &&& functional1(self.norm)
        &&& functional1(self.threshold)
        &&& functional1(self.conjugate)
    }

    pub(crate) fn window_len_of(&self, freq: u32) -> (len: usize)
        requires
            self.wf(),
        ensures
            len == (self@.window_len)(freq),
    {
        (self.window_len)(freq)
    }

    pub(crate) fn tone_at(&self, freq: u32, n: usize, len: usize) -> (x: C)
        requires
            self.wf(),
        ensures
            x == (self@.tone)(freq, n, len),
    {
        (self.tone)(freq, n, len)
    }

    pub(crate) fn transform_of(&self, samples: Vec<C>) -> (lines: Vec<C>)
        requires
            self.wf(),
        ensures
            lines@ == (self@.transform)(samples@),
            lines@.len() == samples@.len(),
    {
        let ghost items = samples@;
        let lines = (self.transform)(samples);
        assert(transformed_to(self.transform, items, lines));
        lines
    }

    pub(crate) fn norm_of(&self, x: C) -> (r: u32)
        requires
            self.wf(),
        ensures
            r == (self@.norm)(x),
    {
        (self.norm)(x)
    }

    pub(crate) fn threshold_of(&self, largest: u32) -> (r: u32)
        requires
            self.wf(),
        ensures
            r == (self@.threshold)(largest),
    {
        (self.threshold)(largest)
    }

    pub(crate) fn conjugate_of(&self, x: C) -> (r: C)
        requires
            self.wf(),
        ensures
            r == (self@.conjugate)(x),
    {
        (self.conjugate)(x)
    }
}

/// The operations of the analyzer are those that were handed in, each with its arguments in
/// their order.
pub proof fn arithmetic_is_as_handed_in<
    C,
    HalfSum,
    HalfDifference,
    Transform,
    Accumulate,
    Level,
    Smooth,
>(
    math: Arithmetic<C, HalfSum, HalfDifference, Transform, Accumulate, Level, Smooth>,
    x: u32,
    y: u32,
    z: u32,
    n: usize,
    a: C,
    b: C,
    c: C,
    r: u32,
    s: C,
) where
    C: Copy,
    HalfSum: Fn(u32, u32) -> u32,
    HalfDifference: Fn(u32, u32) -> u32,
    Transform: Fn(Vec<u32>) -> Vec<C>,
    Accumulate: Fn(C, C, C) -> C,
    Level: Fn(C, usize) -> u32,
    Smooth: Fn(u32, u32, u32) -> u32,

    requires
        math.wf(),
    ensures
        math@.zero == math.zero,
        math.half_sum.ensures((x, y), r) ==> (math@.half_sum)(x, y) == r,
        math.half_difference.ensures((x, y), r) ==> (math@.half_difference)(x, y) == r,
        math.accumulate.ensures((a, b, c), s) ==> (math@.accumulate)(a, b, c) == s,
        math.level.ensures((a, n), r) ==> (math@.level)(a, n) == r,
        math.smooth.ensures((x, y, z), r) ==> (math@.smooth)(x, y, z) == r,
{
}

/// The transform of a list is what the function that was handed in gives for it.
pub proof fn transform_is_as_handed_in<A, R, F: Fn(Vec<A>) -> Vec<R>>(
    f: F,
    list: Vec<A>,
    result: Vec<R>,
)
    requires
        transforms(f),
        f.ensures((list,), result),
    ensures
        transform_of(f, list@) == result@,
        result@.len() == list@.len(),
{
    assert(transformed_to(f, list@, result));
}

/// The operations with which kernels are made are those that were handed in.
pub proof fn kernel_arithmetic_is_as_handed_in<
    C,
    WindowLen,
    Tone,
    Transform,
    Norm,
    Threshold,
    Conjugate,
>(
    math: KernelArithmetic<C, WindowLen, Tone, Transform, Norm, Threshold, Conjugate>,
    freq: u32,
    n: usize,
    len: usize,
    a: C,
    s: C,
    r: u32,
) where
    C: Copy,
    WindowLen: Fn(u32) -> usize,
    Tone: Fn(u32, usize, usize) -> C,
    Transform: Fn(Vec<C>) -> Vec<C>,
    Norm: Fn(C) -> u32,
    Threshold: Fn(u32) -> u32,
    Conjugate: Fn(C) -> C,

    requires
        math.wf(),
    ensures
        math@.zero == math.zero,
        math.window_len.ensures((freq,), len) ==> (math@.window_len)(freq) == len,
        math.tone.ensures((freq, n, len), s) ==> (math@.tone)(freq, n, len) == s,
        math.norm.ensures((a,), r) ==> (math@.norm)(a) == r,
        math.threshold.ensures((freq,), r) ==> (math@.threshold)(freq) == r,
        math.conjugate.ensures((a,), s) ==> (math@.conjugate)(a) == s,
{
}

} // verus!
