//! The windowed sequence matcher.
//!
//! A window of as many consecutive files as the target sequence has values
//! slides over the list of files, one file at a time. Each window that
//! matches the target is a run; runs may overlap.

use crate::options::EvMode;
use crate::rational::{ExposureValue, Rational};
use crate::scan::FileRecord;
use crate::sequence::views;
use vstd::arithmetic::mul::{
    lemma_mul_equality_converse, lemma_mul_is_associative, lemma_mul_is_commutative,
    lemma_mul_is_distributive_sub, lemma_mul_is_distributive_sub_other_way, lemma_mul_nonzero,
};
use vstd::prelude::*;
use vstd::slice::slice_subrange;

verus! {

/// The file has an exposure bias, and it is the number `value`.
pub open spec fn bias_is(file: FileRecord, value: Rational) -> bool {
    match file.exposure_bias {
        Some(bias) => bias@.same(value),
        None => false,
    }
}

/// The file has an exposure bias, and it lies `value` above `base`.
pub open spec fn bias_offset_is(file: FileRecord, base: Rational, value: Rational) -> bool {
    match file.exposure_bias {
        Some(bias) => bias@.minus(base).same(value),
        None => false,
    }
}

/// The index of the first zero in `target`, or its length where it holds
/// none.
pub open spec fn zero_index(target: Seq<Rational>) -> nat
    decreases target.len(),
{
    if target.len() == 0 {
        0
    } else if target[0].is_zero() {
        0
    } else {
        1 + zero_index(target.skip(1))
    }
}

/// Absolute mode: each file of the window has the bias that the target
/// gives for its position.
pub open spec fn matches_absolute(window: Seq<FileRecord>, target: Seq<Rational>) -> bool {
    forall|i: int| 0 <= i < target.len() ==> bias_is(#[trigger] window[i], target[i])
}

/// Delta mode: the target holds a zero, the file at the position of its
/// first zero has a bias, and the bias of each file lies above that one by
/// what the target gives for its position.
pub open spec fn matches_delta(window: Seq<FileRecord>, target: Seq<Rational>) -> bool {
    let z = zero_index(target) as int;
    &&& z < target.len()
    &&& window[z].exposure_bias is Some
    &&& forall|i: int|
        0 <= i < target.len() ==> bias_offset_is(
            #[trigger] window[i],
            window[z].exposure_bias->0@,
            target[i],
        )
}

/// The match predicate of the mode.
pub open spec fn window_matches(window: Seq<FileRecord>, target: Seq<Rational>, mode: EvMode) -> bool {
    match mode {
        EvMode::Absolute => matches_absolute(window, target),
        EvMode::Delta => matches_delta(window, target),
    }
}

/// The window of `len` files that starts at `offset`.
pub open spec fn window_at(files: Seq<FileRecord>, offset: int, len: int) -> Seq<FileRecord> {
    files.subrange(offset, offset + len)
}

/// The predicate on offsets: the window that starts there matches.
pub open spec fn offset_matches(files: Seq<FileRecord>, target: Seq<Rational>, mode: EvMode) -> spec_fn(
    int,
) -> bool {
    |offset: int| window_matches(window_at(files, offset, target.len() as int), target, mode)
}

/// The number of windows: none for an empty target or for fewer files than
/// the target has values.
pub open spec fn window_count(files: Seq<FileRecord>, target: Seq<Rational>) -> nat {
    if target.len() == 0 || files.len() < target.len() {
        0
    } else {
        (files.len() - target.len() + 1) as nat
    }
}

/// The offsets from 0 up to `count`, without it.
pub open spec fn first_offsets(count: nat) -> Seq<int> {
    Seq::new(count, |i: int| i)
}

/// The offsets of the matching windows, in ascending order.
pub open spec fn matching_offsets(files: Seq<FileRecord>, target: Seq<Rational>, mode: EvMode) -> Seq<
    int,
> {
    first_offsets(window_count(files, target)).filter(offset_matches(files, target, mode))
}

/// The matching windows, in the order of their offsets.
pub open spec fn matched_runs(files: Seq<FileRecord>, target: Seq<Rational>, mode: EvMode) -> Seq<
    Seq<FileRecord>,
> {
    matching_offsets(files, target, mode).map_values(
        |offset: int| window_at(files, offset, target.len() as int),
    )
}

/// The files of each run.
pub open spec fn run_views(runs: Seq<&[FileRecord]>) -> Seq<Seq<FileRecord>> {
    runs.map_values(|run: &[FileRecord]| run@)
}

/// The position of the first zero in `sequence`, the anchor of delta mode.
pub fn zero_anchor(sequence: &[ExposureValue]) -> (r: Option<usize>)
    ensures
        match r {
            Some(z) => z < sequence@.len() && z == zero_index(views(sequence@)),
            None => zero_index(views(sequence@)) >= sequence@.len(),
        },
{
    let ghost target = views(sequence@);
    let mut i: usize = 0;
    proof {
        assert(target.skip(0) =~= target);
    }
    while i < sequence.len()
        invariant
            i <= sequence.len(),
            target == views(sequence@),
            zero_index(target) == i + zero_index(target.skip(i as int)),
        decreases sequence.len() - i,
    {
        proof {
            assert(target.skip(i as int)[0] == target[i as int]);
            assert(target.skip(i as int).skip(1) =~= target.skip(i + 1));
        }
        if sequence[i].is_zero() {
            return Some(i);
        }
        i += 1;
    }
    None
}

/// Whether the window at `offset` matches in absolute mode.
fn window_matches_absolute(files: &[FileRecord], offset: usize, sequence: &[ExposureValue]) -> (b:
    bool)
    requires
        offset + sequence@.len() <= files@.len(),
    ensures
        b == matches_absolute(
            window_at(files@, offset as int, sequence@.len() as int),
            views(sequence@),
        ),
{
    let ghost window = window_at(files@, offset as int, sequence@.len() as int);
    let ghost target = views(sequence@);
    let total = files.len();
    let mut i: usize = 0;
    while i < sequence.len()
        invariant
            i <= sequence.len(),
            total == files@.len(),
            offset + sequence@.len() <= files@.len(),
            window == window_at(files@, offset as int, sequence@.len() as int),
            target == views(sequence@),
            forall|j: int| 0 <= j < i ==> bias_is(#[trigger] window[j], target[j]),
        decreases sequence.len() - i,
    {
        let file = &files[offset + i];
        assert(window[i as int] == *file);
        let same = match &file.exposure_bias {
            Some(bias) => *bias == sequence[i],
            None => false,
        };
        if !same {
            return false;
        }
        i += 1;
    }
    true
}

/// Whether the window at `offset` matches in delta mode, with the anchor
/// at `z`.
fn window_matches_delta(
    files: &[FileRecord],
    offset: usize,
    sequence: &[ExposureValue],
    z: usize,
) -> (b: bool)
    requires
        offset + sequence@.len() <= files@.len(),
        z < sequence@.len(),
        z == zero_index(views(sequence@)),
    ensures
        b == matches_delta(
            window_at(files@, offset as int, sequence@.len() as int),
            views(sequence@),
        ),
{
    let ghost window = window_at(files@, offset as int, sequence@.len() as int);
    let ghost target = views(sequence@);
    let total = files.len();
    assert(window[z as int] == files@[offset + z]);
    let base = match &files[offset + z].exposure_bias {
        Some(bias) => bias,
        None => {
            return false;
        },
    };
    let mut i: usize = 0;
    while i < sequence.len()
        invariant
            i <= sequence.len(),
            total == files@.len(),
            offset + sequence@.len() <= files@.len(),
            window == window_at(files@, offset as int, sequence@.len() as int),
            target == views(sequence@),
            z < sequence@.len(),
            z == zero_index(target),
            window[z as int].exposure_bias == Some(*base),
            forall|j: int| 0 <= j < i ==> bias_offset_is(#[trigger] window[j], base@, target[j]),
        decreases sequence.len() - i,
    {
        let file = &files[offset + i];
        assert(window[i as int] == *file);
        let same = match &file.exposure_bias {
            Some(bias) => bias.differs_by(base, &sequence[i]),
            None => false,
        };
        if !same {
            return false;
        }
        i += 1;
    }
    true
}

/// Finds the runs of `files` that match `sequence`.
///
/// Every window of `sequence.len()` consecutive files is tested, in order,
/// and each one that matches is returned, so that runs may share files.
/// There is no window when the sequence is empty or longer than the list of
/// files, and none matches in delta mode when the sequence holds no zero.
pub fn find_matching_sequences<'a>(
    files: &'a [FileRecord],
    sequence: &[ExposureValue],
    ev_mode: EvMode,
) -> (runs: Vec<&'a [FileRecord]>)
    ensures
        run_views(runs@) == matched_runs(files@, views(sequence@), ev_mode),
        runs@.len() <= window_count(files@, views(sequence@)),
        ev_mode == EvMode::Delta && zero_index(views(sequence@)) >= sequence@.len() ==> runs@.len()
            == 0,
{
    let ghost target = views(sequence@);
    let ghost pred = offset_matches(files@, target, ev_mode);
    let n = sequence.len();
    let mut runs: Vec<&'a [FileRecord]> = Vec::new();
    proof {
        first_offsets(window_count(files@, target)).lemma_filter_len(pred);
        if ev_mode == EvMode::Delta && zero_index(target) >= target.len() {
            lemma_delta_needs_zero(files@, target);
        }
    }
    if n == 0 || files.len() < n {
        proof {
            reveal(Seq::filter);
            assert(run_views(runs@) =~= matched_runs(files@, target, ev_mode));
        }
        return runs;
    }
    let last = files.len() - n;
    let anchor = zero_anchor(sequence);
    let ghost mut offsets: Seq<int> = Seq::empty();
    proof {
        reveal(Seq::filter);
        assert(first_offsets(0).filter(pred) =~= offsets);
    }
    let mut offset: usize = 0;
    while offset <= last
        invariant
            offset <= last + 1,
            last + n == files@.len(),
            files@.len() <= usize::MAX,
            n == sequence@.len(),
            n > 0,
            target == views(sequence@),
            pred == offset_matches(files@, target, ev_mode),
            match anchor {
                Some(z) => z < sequence@.len() && z == zero_index(target),
                None => zero_index(target) >= sequence@.len(),
            },
            offsets == first_offsets(offset as nat).filter(pred),
            run_views(runs@) == offsets.map_values(|o: int| window_at(files@, o, n as int)),
        decreases last + 1 - offset,
    {
        let matched = match ev_mode {
            EvMode::Absolute => window_matches_absolute(files, offset, sequence),
            EvMode::Delta => match anchor {
                Some(z) => window_matches_delta(files, offset, sequence, z),
                None => false,
            },
        };
        proof {
            let before = first_offsets(offset as nat);
            assert(first_offsets((offset + 1) as nat) =~= before.push(offset as int));
            before.lemma_filter_push(offset as int, pred);
            assert(matched == pred(offset as int));
        }
        if matched {
            let run = slice_subrange(files, offset, offset + n);
            let ghost old_runs = runs@;
            runs.push(run);
            proof {
                offsets = offsets.push(offset as int);
                assert(run_views(runs@) =~= run_views(old_runs).push(run@));
                assert(run_views(runs@) =~= offsets.map_values(
                    |o: int| window_at(files@, o, n as int),
                ));
            }
        }
        offset += 1;
    }
    runs
}

/// The offsets that a filter keeps of the first `count` offsets ascend, and
/// each is one of them.
proof fn lemma_kept_offsets_ascend(count: nat, pred: spec_fn(int) -> bool)
    ensures
        forall|i: int|
            0 <= i < first_offsets(count).filter(pred).len() ==> 0 <= (#[trigger] first_offsets(
                count,
            ).filter(pred)[i]) < count,
        forall|i: int, j: int|
            0 <= i < j < first_offsets(count).filter(pred).len() ==> (#[trigger] first_offsets(
                count,
            ).filter(pred)[i]) < (#[trigger] first_offsets(count).filter(pred)[j]),
    decreases count,
{
    reveal(Seq::filter);
    if count > 0 {
        let before = first_offsets((count - 1) as nat);
        lemma_kept_offsets_ascend((count - 1) as nat, pred);
        assert(first_offsets(count) =~= before.push(count - 1));
        before.lemma_filter_push(count - 1, pred);
    }
}

/// Every run that is found is a window of the list: it starts at an offset
/// within the list, has as many files as the target has values, and
/// satisfies the match predicate of the mode.
pub proof fn lemma_runs_are_matching_windows(
    files: Seq<FileRecord>,
    target: Seq<Rational>,
    mode: EvMode,
    k: int,
)
    requires
        0 <= k < matched_runs(files, target, mode).len(),
    ensures
        ({
            let offset = matching_offsets(files, target, mode)[k];
            let run = matched_runs(files, target, mode)[k];
            &&& target.len() > 0
            &&& 0 <= offset
            &&& offset + target.len() <= files.len()
            &&& run == window_at(files, offset, target.len() as int)
            &&& run.len() == target.len()
            &&& window_matches(run, target, mode)
        }),
{
    let candidates = first_offsets(window_count(files, target));
    let pred = offset_matches(files, target, mode);
    candidates.lemma_filter_pred(pred, k);
    lemma_kept_offsets_ascend(window_count(files, target), pred);
}

/// Every window of the list that satisfies the match predicate is found,
/// whether or not it shares files with another one.
pub proof fn lemma_matching_window_is_a_run(
    files: Seq<FileRecord>,
    target: Seq<Rational>,
    mode: EvMode,
    offset: int,
)
    requires
        target.len() > 0,
        0 <= offset,
        offset + target.len() <= files.len(),
        window_matches(window_at(files, offset, target.len() as int), target, mode),
    ensures
        matching_offsets(files, target, mode).contains(offset),
        matched_runs(files, target, mode).contains(window_at(files, offset, target.len() as int)),
{
    let candidates = first_offsets(window_count(files, target));
    let pred = offset_matches(files, target, mode);
    assert(candidates[offset] == offset);
    assert(pred(offset));
    candidates.lemma_filter_contains(pred, offset);
    let offsets = matching_offsets(files, target, mode);
    let j = choose|j: int| 0 <= j < offsets.len() && offsets[j] == offset;
    assert(matched_runs(files, target, mode)[j] == window_at(
        files,
        offset,
        target.len() as int,
    ));
}

/// The runs come in the order of their windows: a later run starts at a
/// higher offset.
pub proof fn lemma_runs_keep_window_order(
    files: Seq<FileRecord>,
    target: Seq<Rational>,
    mode: EvMode,
    i: int,
    j: int,
)
    requires
        0 <= i < j < matching_offsets(files, target, mode).len(),
    ensures
        matching_offsets(files, target, mode)[i] < matching_offsets(files, target, mode)[j],
{
    lemma_kept_offsets_ascend(window_count(files, target), offset_matches(files, target, mode));
}

/// Delta mode finds nothing where the target sequence holds no zero.
pub proof fn lemma_delta_needs_zero(files: Seq<FileRecord>, target: Seq<Rational>)
    requires
        zero_index(target) >= target.len(),
    ensures
        matched_runs(files, target, EvMode::Delta) == Seq::<Seq<FileRecord>>::empty(),
{
    let runs = matched_runs(files, target, EvMode::Delta);
    if runs.len() > 0 {
        lemma_runs_are_matching_windows(files, target, EvMode::Delta, 0);
    }
    assert(runs =~= Seq::<Seq<FileRecord>>::empty());
}

/// A window in which a file has no exposure bias does not match in absolute
/// mode, whatever the target holds.
pub proof fn lemma_absent_bias_fails_absolute(
    window: Seq<FileRecord>,
    target: Seq<Rational>,
    i: int,
)
    requires
        0 <= i < target.len(),
        window[i].exposure_bias is None,
    ensures
        !matches_absolute(window, target),
{
    assert(!bias_is(window[i], target[i]));
}

/// No run found in absolute mode holds a file without exposure bias.
pub proof fn lemma_absolute_runs_have_bias(
    files: Seq<FileRecord>,
    target: Seq<Rational>,
    k: int,
    i: int,
)
    requires
        0 <= k < matched_runs(files, target, EvMode::Absolute).len(),
        0 <= i < target.len(),
    ensures
        matched_runs(files, target, EvMode::Absolute)[k][i].exposure_bias is Some,
{
    lemma_runs_are_matching_windows(files, target, EvMode::Absolute, k);
    let run = matched_runs(files, target, EvMode::Absolute)[k];
    assert(bias_is(run[i], target[i]));
}

/// A product spread over a difference.
proof fn lemma_spread(x: int, y: int, v: int, d: int)
    ensures
        x * ((y - v) * d) == x * y * d - x * v * d,
        (y - v) * x == y * x - v * x,
{
    lemma_mul_is_distributive_sub_other_way(d, y, v);
    lemma_mul_is_distributive_sub(x, y * d, v * d);
    lemma_mul_is_associative(x, y, d);
    lemma_mul_is_associative(x, v, d);
    lemma_mul_is_distributive_sub_other_way(x, y, v);
}

/// One product of four factors in two arrangements.
proof fn lemma_rearrange_four(x: int, y: int, u: int, v: int)
    ensures
        (x * y) * (u * v) == (u * x) * (v * y),
{
    lemma_mul_is_associative(x * y, u, v);
    lemma_mul_is_commutative(x * y, u);
    lemma_mul_is_associative(u, x, y);
    lemma_mul_is_associative(u * x, y, v);
    lemma_mul_is_commutative(y, v);
}

/// One product of five factors in several arrangements.
proof fn lemma_rearrange(x: int, y: int, u: int, v: int, d: int)
    ensures
        (x * y) * (u * v) * d == (u * x) * (v * y * d),
        (x * y) * (u * v) * d == (u * x) * (y * v * d),
        (x * y) * (u * v) * d == (u * y) * (v * x * d),
        (x * y) * (u * v) * d == (u * y) * (x * v * d),
{
    lemma_rearrange_four(x, y, u, v);
    lemma_mul_is_associative(u * x, v * y, d);
    lemma_mul_is_commutative(v, y);
    lemma_mul_is_commutative(x, y);
    lemma_rearrange_four(y, x, u, v);
    lemma_mul_is_associative(u * y, v * x, d);
    lemma_mul_is_commutative(v, x);
}

/// A polynomial identity behind the cancelling of a common shift.
proof fn lemma_shift_identity(
    a: int,
    b: int,
    z: int,
    w: int,
    p: int,
    q: int,
    r: int,
    s: int,
    d: int,
)
    ensures
        (s * w) * ((p * b - a * q) * d) - (q * b) * ((r * w - z * s) * d) == (p * s - r * q) * (b
            * w * d) - (a * w - z * b) * (q * s * d),
{
    lemma_spread(s * w, p * b, a * q, d);
    lemma_spread(q * b, r * w, z * s, d);
    lemma_spread(b * w * d, p * s, r * q, d);
    lemma_spread(q * s * d, a * w, z * b, d);
    lemma_rearrange(s, w, p, b, d);
    lemma_rearrange(s, w, a, q, d);
    lemma_rearrange(q, b, r, w, d);
    lemma_rearrange(q, b, z, s, d);
}

/// A nonzero factor on both sides of an equation can be dropped.
proof fn lemma_cancel_factor(x: int, y: int, k: int)
    requires
        x * k == y * k,
        k != 0,
    ensures
        x == y,
{
    lemma_mul_is_commutative(x, k);
    lemma_mul_is_commutative(y, k);
    lemma_mul_equality_converse(k, x, y);
}

/// A product of three nonzero integers is not zero.
proof fn lemma_nonzero_product(x: int, y: int, z: int)
    requires
        x != 0,
        y != 0,
        z != 0,
    ensures
        x * y * z != 0,
{
    lemma_mul_nonzero(x, y);
    lemma_mul_nonzero(x * y, z);
}

/// `(x * v) * k1` and `(y * v) * k2` are equal where `x * k1` and `y * k2` are.
proof fn lemma_carry_factor(x: int, y: int, k1: int, k2: int, v: int)
    requires
        x * k1 == y * k2,
    ensures
        (x * v) * k1 == (y * v) * k2,
{
    lemma_mul_is_associative(x, v, k1);
    lemma_mul_is_commutative(v, k1);
    lemma_mul_is_associative(x, k1, v);
    lemma_mul_is_associative(y, v, k2);
    lemma_mul_is_commutative(v, k2);
    lemma_mul_is_associative(y, k2, v);
}

/// The products `u * x` and `u * y`, each scaled by the other's second
/// factor and `d`, are one number.
proof fn lemma_swap_denominators(u: int, x: int, y: int, d: int)
    ensures
        (u * x) * (y * d) == (u * y) * (x * d),
{
    lemma_mul_is_associative(u * x, y, d);
    lemma_mul_is_associative(u, x, y);
    lemma_mul_is_commutative(x, y);
    lemma_mul_is_associative(u, y, x);
    lemma_mul_is_associative(u * y, x, d);
}

/// Two differences of fractions that were raised by one amount: the
/// difference of the raised ones, cross-multiplied, is that of the others.
proof fn lemma_shifted_difference(a: Rational, z: Rational, sa: Rational, sz: Rational, c: Rational)
    requires
        c.den != 0,
        sa.minus(a).same(c),
        sz.minus(z).same(c),
    ensures
        sa.minus(sz).num * (a.den * z.den * c.den) == a.minus(z).num * (sa.den * sz.den * c.den),
{
    let first = (sa.num * a.den - a.num * sa.den) * c.den;
    let second = (sz.num * z.den - z.num * sz.den) * c.den;
    assert(first == c.num * (sa.den * a.den));
    assert(second == c.num * (sz.den * z.den));
    lemma_shift_identity(a.num, a.den, z.num, z.den, sa.num, sa.den, sz.num, sz.den, c.den);
    assert((sz.den * z.den) * first == (sa.den * a.den) * second) by {
        lemma_mul_is_associative(sz.den * z.den, c.num, sa.den * a.den);
        lemma_mul_is_commutative(sz.den * z.den, c.num);
        lemma_mul_is_associative(c.num, sz.den * z.den, sa.den * a.den);
        lemma_mul_is_commutative(sz.den * z.den, sa.den * a.den);
        lemma_mul_is_associative(c.num, sa.den * a.den, sz.den * z.den);
        lemma_mul_is_commutative(c.num, sa.den * a.den);
        lemma_mul_is_associative(sa.den * a.den, c.num, sz.den * z.den);
    }
}

/// Delta mode sees only differences: where each of two files is raised by
/// the same amount, their difference is the same number as before.
pub proof fn lemma_difference_ignores_shift(
    a: Rational,
    z: Rational,
    sa: Rational,
    sz: Rational,
    c: Rational,
    t: Rational,
)
    requires
        a.den != 0,
        z.den != 0,
        sa.den != 0,
        sz.den != 0,
        c.den != 0,
        sa.minus(a).same(c),
        sz.minus(z).same(c),
    ensures
        sa.minus(sz).same(t) == a.minus(z).same(t),
{
    let x = sa.minus(sz).num;
    let y = a.minus(z).num;
    let k1 = a.den * z.den * c.den;
    let k2 = sa.den * sz.den * c.den;
    lemma_shifted_difference(a, z, sa, sz, c);
    lemma_nonzero_product(a.den, z.den, c.den);
    lemma_nonzero_product(sa.den, sz.den, c.den);
    lemma_carry_factor(x, y, k1, k2, t.den);
    lemma_swap_denominators(t.num, a.den * z.den, sa.den * sz.den, c.den);
    // (x * t.den) * k1 == (y * t.den) * k2, and
    // (t.num * (a.den * z.den)) * k2 == (t.num * (sa.den * sz.den)) * k1.
    if a.minus(z).same(t) {
        lemma_cancel_factor(x * t.den, t.num * (sa.den * sz.den), k1);
    }
    if sa.minus(sz).same(t) {
        lemma_cancel_factor(y * t.den, t.num * (a.den * z.den), k2);
    }
}

/// The biases of the first `len` files of `shifted` are those of `window`,
/// each raised by `shift`.
pub open spec fn is_shifted_by(
    window: Seq<FileRecord>,
    shifted: Seq<FileRecord>,
    shift: Rational,
    len: int,
) -> bool {
    forall|i: int|
        0 <= i < len ==> {
            &&& (#[trigger] window[i]).exposure_bias is Some
            &&& shifted[i].exposure_bias is Some
            &&& window[i].exposure_bias->0.wf()
            &&& shifted[i].exposure_bias->0.wf()
            &&& shifted[i].exposure_bias->0@.minus(window[i].exposure_bias->0@).same(shift)
        }
}

/// Delta mode does not see the level of a bracket: a window matches exactly
/// where the window with every bias raised by one common amount does.
pub proof fn lemma_delta_ignores_common_shift(
    window: Seq<FileRecord>,
    shifted: Seq<FileRecord>,
    target: Seq<Rational>,
    shift: Rational,
)
    requires
        shift.den != 0,
        is_shifted_by(window, shifted, shift, target.len() as int),
    ensures
        matches_delta(window, target) == matches_delta(shifted, target),
{
    let z = zero_index(target) as int;
    if z < target.len() {
        assert(window[z].exposure_bias is Some && shifted[z].exposure_bias is Some);
        let base = window[z].exposure_bias->0@;
        let raised_base = shifted[z].exposure_bias->0@;
        assert forall|i: int| 0 <= i < target.len() implies bias_offset_is(
            window[i],
            base,
            target[i],
        ) == bias_offset_is(shifted[i], raised_base, target[i]) by {
            assert(window[i].exposure_bias is Some && shifted[i].exposure_bias is Some);
            lemma_difference_ignores_shift(
                window[i].exposure_bias->0@,
                base,
                shifted[i].exposure_bias->0@,
                raised_base,
                shift,
                target[i],
            );
        }
        if matches_delta(window, target) {
            assert forall|i: int| 0 <= i < target.len() implies bias_offset_is(
                #[trigger] shifted[i],
                raised_base,
                target[i],
            ) by {
                assert(bias_offset_is(window[i], base, target[i]));
            }
        }
        if matches_delta(shifted, target) {
            assert forall|i: int| 0 <= i < target.len() implies bias_offset_is(
                #[trigger] window[i],
                base,
                target[i],
            ) by {
                assert(bias_offset_is(shifted[i], raised_base, target[i]));
            }
        }
    }
}

} // verus!
