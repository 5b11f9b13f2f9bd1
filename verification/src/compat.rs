//! The compatibility checker: the recursive relation deciding whether a
//! source slot sequence can produce a destination slot sequence, under a
//! [`Policy`].
//!
//! The relation is defined structurally on the destination sequence and walks
//! the two sequences byte by byte: two byte runs are compared over the prefix
//! both have (splitting the wider one), a reference meeting plain bytes is
//! decomposed into its pointer-width bytes, and two references meeting head-on
//! are compared by the pointer rule, which re-invokes the whole check on the
//! pointee layouts at exact variance.

use crate::layout::{
    alts_height, layout_height, layout_valid, lemma_alts_split, lemma_alts_view_index, Layout,
    LayoutV,
};
use crate::policy::{Alignment, Policy, Stability, Transparency, Validity, Variance};
use crate::slot::{
    class_at, lemma_slots_split, lemma_slots_view_index, rem_wid, seq_wid, slot_height, slot_wid,
    slots_height, slots_valid, slots_view, ByteClass, Kind, Mutability, Slot, SlotV, Visibility,
    POINTER_WIDTH,
};
use vstd::prelude::*;

verus! {

/// Why a compatibility query was rejected: the first mismatch the checker
/// meets, with the byte offset at which it stands and what was involved
/// there.
#[derive(Clone, Copy, Debug, PartialEq, Eq, Structural)]
pub enum Report {
    /// The policy demands attested stability and at least one side is not
    /// attested.
    StabilityUnattested,
    /// The destination is larger than the source; never accepted.
    SizeExceeded { src_size: usize, dst_size: usize },
    /// The source ran out of bytes while destination bytes remained.
    SizeMismatch { offset: usize },
    /// The byte validity classes at `offset` do not satisfy the
    /// kind-transition table under the policy's variance.
    KindMismatch { offset: usize, src_kind: Kind, dst_kind: Kind },
    /// The visibilities at `offset` are not accepted: a private source byte
    /// may only be widened, and a private destination byte demands unenforced
    /// transparency.
    VisibilityViolation { offset: usize, src_vis: Visibility, dst_vis: Visibility },
    /// The destination demands a fixed tag byte that the source does not
    /// carry.
    DiscriminantMismatch { offset: usize, src_byte: Option<u8>, dst_byte: u8 },
    /// Two references whose access grants do not agree (shared source, unique
    /// destination).
    MutabilityViolation { offset: usize },
    /// Two references where the destination's lifetime scope is not contained
    /// in the source's.
    LifetimeViolation { offset: usize },
    /// Two references where the destination pointee's alignment is stricter
    /// than the source pointee's, under static alignment checking.
    AlignmentViolation { offset: usize, src_align: usize, dst_align: usize },
    /// Two references whose pointee layouts are not compatible at exact
    /// variance.
    PointeeMismatch { offset: usize },
}

/// The five policy dimensions, by name: what a [`Report`] names as the
/// dimension that would need relaxing.
#[derive(Clone, Copy, Debug, PartialEq, Eq, Structural)]
pub enum Dimension {
    Variance,
    Alignment,
    Transparency,
    Stability,
    Validity,
}

/// The kind-transition table: whether a source byte of class `s` may be read
/// back as a destination byte of class `d`. Identical classes are always
/// compatible; a widening step (losing a guarantee) demands
/// [`Variance::Variant`].
pub open spec fn kind_ok(s: Kind, d: Kind, v: Variance) -> bool {
    s == d || (v == Variance::Variant && kind_widens(s, d))
}

/// The strict widening steps of the kind-transition table: `NonZero` may be
/// read back as `Initialized` or `Uninitialized`, and `Initialized` as
/// `Uninitialized`.
pub open spec fn kind_widens(s: Kind, d: Kind) -> bool {
    ||| (s == Kind::NonZero && d == Kind::Initialized)
    ||| (s == Kind::NonZero && d == Kind::Uninitialized)
    ||| (s == Kind::Initialized && d == Kind::Uninitialized)
}

/// The visibility rule: a public source byte may always become a public
/// destination byte; a private source byte becomes public only where the
/// owned value's validity may widen; a private destination byte is accepted
/// only where transparency is unenforced.
pub open spec fn vis_ok(s: Visibility, d: Visibility, pol: Policy) -> bool {
    match d {
        Visibility::Public => s == Visibility::Public || pol.variance == Variance::Variant,
        Visibility::Private => pol.transparency == Transparency::Unenforced,
    }
}

/// The whole byte rule at one position: the kind-transition table, the
/// visibility rule, and the discriminant demand.
pub open spec fn byte_ok(cs: ByteClass, cd: ByteClass, pol: Policy) -> bool {
    &&& kind_ok(cs.kind, cd.kind, pol.variance)
    &&& vis_ok(cs.vis, cd.vis, pol)
    &&& (cd.fixed is Some ==> cs.fixed == cd.fixed)
}

/// The mutability rule between two pointer slots: a unique destination
/// demands a unique source.
pub open spec fn mut_ok(s: Mutability, d: Mutability) -> bool {
    d == Mutability::Unique ==> s == Mutability::Unique
}

/// Whether the policy's stability demand is met: either attestation is not
/// required, or both layouts carry the marker.
pub open spec fn stability_ok(s: LayoutV, d: LayoutV, pol: Policy) -> bool {
    pol.stability == Stability::Unstable || (s.attested && d.attested)
}

/// The structural walk over one source and one destination slot sequence.
///
/// `oi` and `oj` are the bytes already consumed of the respective head slots,
/// and `off` the byte offset both sequences have reached (the two sides
/// advance in lockstep). The relation holds when the destination is fully
/// accounted for; remaining source bytes are simply not read.
pub open spec fn walk(
    src: Seq<SlotV>,
    oi: nat,
    dst: Seq<SlotV>,
    oj: nat,
    pol: Policy,
    off: nat,
) -> Result<(), Report>
    decreases
        slots_height(src) + slots_height(dst),
        src.len() + dst.len(),
        rem_wid(src, oi) + rem_wid(dst, oj),
    via walk_decreases
{
    if dst.len() == 0 {
        Ok(())
    } else if oj >= slot_wid(dst[0]) {
        walk(src, oi, dst.drop_first(), 0, pol, off)
    } else if src.len() == 0 {
        Err(Report::SizeMismatch { offset: off as usize })
    } else if oi >= slot_wid(src[0]) {
        walk(src.drop_first(), 0, dst, oj, pol, off)
    } else if src[0] is Reference && dst[0] is Reference && oi == 0 && oj == 0 {
        let sp = src[0]->Reference_pointee;
        let dp = dst[0]->Reference_pointee;
        if !mut_ok(src[0]->Reference_mutability, dst[0]->Reference_mutability) {
            Err(Report::MutabilityViolation { offset: off as usize })
        } else if dst[0]->Reference_nonnull && !src[0]->Reference_nonnull {
            Err(Report::KindMismatch {
                offset: off as usize,
                src_kind: Kind::Initialized,
                dst_kind: Kind::NonZero,
            })
        } else if dst[0]->Reference_nonnull && dst[0]->Reference_scope > src[0]->Reference_scope {
            Err(Report::LifetimeViolation { offset: off as usize })
        } else if pol.alignment == Alignment::Static && dp.align > sp.align {
            Err(Report::AlignmentViolation {
                offset: off as usize,
                src_align: sp.align as usize,
                dst_align: dp.align as usize,
            })
        } else if layouts_check(sp, dp, pol.with_variance(Variance::Invariant)) is Err {
            Err(Report::PointeeMismatch { offset: off as usize })
        } else {
            walk(src.drop_first(), 0, dst.drop_first(), 0, pol, (off + POINTER_WIDTH) as nat)
        }
    } else {
        let cs = class_at(src[0], oi);
        let cd = class_at(dst[0], oj);
        if !kind_ok(cs.kind, cd.kind, pol.variance) {
            Err(Report::KindMismatch { offset: off as usize, src_kind: cs.kind, dst_kind: cd.kind })
        } else if !vis_ok(cs.vis, cd.vis, pol) {
            Err(Report::VisibilityViolation {
                offset: off as usize,
                src_vis: cs.vis,
                dst_vis: cd.vis,
            })
        } else if cd.fixed is Some && cs.fixed != cd.fixed {
            Err(Report::DiscriminantMismatch {
                offset: off as usize,
                src_byte: cs.fixed,
                dst_byte: cd.fixed->0,
            })
        } else {
            walk(src, oi + 1, dst, oj + 1, pol, off + 1)
        }
    }
}

#[via_fn]
proof fn walk_decreases(src: Seq<SlotV>, oi: nat, dst: Seq<SlotV>, oj: nat, pol: Policy, off: nat) {
    if dst.len() > 0 && oj < slot_wid(dst[0]) {
        assert(slots_height(dst) == slot_height(dst[0]) + slots_height(dst.drop_first()));
        assert(seq_wid(dst) == slot_wid(dst[0]) + seq_wid(dst.drop_first()));
        if src.len() > 0 && oi < slot_wid(src[0]) {
            assert(slots_height(src) == slot_height(src[0]) + slots_height(src.drop_first()));
            assert(seq_wid(src) == slot_wid(src[0]) + seq_wid(src.drop_first()));
        }
    }
}

/// Whether some pair of a source alternative and a destination alternative
/// walks successfully: union alternatives match existentially, on both sides
/// independently.
pub open spec fn some_alts_ok(
    salts: Seq<Seq<SlotV>>,
    dalts: Seq<Seq<SlotV>>,
    pol: Policy,
) -> bool
    decreases alts_height(salts) + alts_height(dalts) + 1, 0nat, 0nat,
    via some_alts_ok_decreases
{
    exists|i: int, j: int|
        #![trigger salts[i], dalts[j]]
        0 <= i < salts.len() && 0 <= j < dalts.len() && walk(salts[i], 0, dalts[j], 0, pol, 0)
            is Ok
}

#[via_fn]
proof fn some_alts_ok_decreases(salts: Seq<Seq<SlotV>>, dalts: Seq<Seq<SlotV>>, pol: Policy) {
    assert forall|i: int, j: int|
        0 <= i < salts.len() && 0 <= j < dalts.len() implies slots_height(salts[i])
        + slots_height(dalts[j]) < alts_height(salts) + alts_height(dalts) + 1 by {
        crate::layout::lemma_alts_split(salts, 0, i);
        crate::layout::lemma_alts_split(dalts, 0, j);
    }
}

/// The full compatibility decision on two layouts.
///
/// In order: the stability demand, the size bound (a destination may never be
/// larger than its source, whatever else the policy waives), then the
/// structural walk over alternatives; a failed walk is waived only by
/// [`Validity::MaybeInvalid`]. Where every pair of alternatives fails, the
/// report is the first pair's.
pub open spec fn layouts_check(s: LayoutV, d: LayoutV, pol: Policy) -> Result<(), Report>
    decreases layout_height(s) + layout_height(d), 0nat, 0nat,
{
    if !stability_ok(s, d, pol) {
        Err(Report::StabilityUnattested)
    } else if d.size > s.size {
        Err(Report::SizeExceeded { src_size: s.size as usize, dst_size: d.size as usize })
    } else if some_alts_ok(s.alts, d.alts, pol) {
        Ok(())
    } else if pol.validity == Validity::MaybeInvalid {
        Ok(())
    } else if s.alts.len() == 0 || d.alts.len() == 0 {
        Err(Report::SizeMismatch { offset: 0 })
    } else {
        walk(s.alts[0], 0, d.alts[0], 0, pol, 0)
    }
}

/// The width, in bytes, of one slot.
pub fn slot_width(s: &Slot) -> (w: usize)
    ensures
        w as nat == slot_wid(s@),
{
    match s {
        Slot::Bytes { width, .. } => *width,
        Slot::Discriminant(d) => d.pattern.len(),
        Slot::Reference(_) => POINTER_WIDTH,
    }
}

/// The class of byte `k` of a slot: its kind, its visibility, and the fixed
/// value a discriminant byte must carry.
fn byte_class(s: &Slot, k: usize) -> (c: (Kind, Visibility, Option<u8>))
    requires
        (k as nat) < slot_wid(s@),
    ensures
        class_at(s@, k as nat) == (ByteClass { kind: c.0, vis: c.1, fixed: c.2 }),
{
    match s {
        Slot::Bytes { kind, vis, .. } => (*kind, *vis, None),
        Slot::Discriminant(d) => (Kind::Initialized, d.vis, Some(d.pattern[k])),
        Slot::Reference(r) => (
            if r.nonnull && k == 0 {
                Kind::NonZero
            } else {
                Kind::Initialized
            },
            r.vis,
            None,
        ),
    }
}

/// One step of the structural walk, from slot `i` (its first `oi` bytes
/// consumed) of the source against slot `j` (its first `oj` bytes consumed)
/// of the destination, both sequences having reached byte offset `off`.
fn walk_step(
    src: &Vec<Slot>,
    i: usize,
    oi: usize,
    dst: &Vec<Slot>,
    j: usize,
    oj: usize,
    pol: Policy,
    off: usize,
) -> (r: Result<(), Report>)
    requires
        i <= src@.len(),
        j <= dst@.len(),
        slots_valid(slots_view(src@)),
        slots_valid(slots_view(dst@)),
        i < src@.len() ==> oi as nat <= slot_wid(slots_view(src@)[i as int]),
        j < dst@.len() ==> oj as nat <= slot_wid(slots_view(dst@)[j as int]),
        off + rem_wid(slots_view(dst@).skip(j as int), oj as nat) <= usize::MAX,
    ensures
        r == walk(
            slots_view(src@).skip(i as int),
            oi as nat,
            slots_view(dst@).skip(j as int),
            oj as nat,
            pol,
            off as nat,
        ),
    decreases
        slots_height(slots_view(src@).skip(i as int)) + slots_height(
            slots_view(dst@).skip(j as int),
        ),
        slots_view(src@).skip(i as int).len() + slots_view(dst@).skip(j as int).len(),
        rem_wid(slots_view(src@).skip(i as int), oi as nat) + rem_wid(
            slots_view(dst@).skip(j as int),
            oj as nat,
        ),
{
    let ghost sv = slots_view(src@);
    let ghost dv = slots_view(dst@);
    let ghost svi = sv.skip(i as int);
    let ghost dvj = dv.skip(j as int);
    proof {
        lemma_slots_view_index(src@);
        lemma_slots_view_index(dst@);
    }
    if j == dst.len() {
        return Ok(());
    }
    proof {
        assert(dvj[0] == dv[j as int]);
        assert(dvj.drop_first() =~= dv.skip(j as int + 1));
        assert(slots_height(dvj) == slot_height(dvj[0]) + slots_height(dvj.drop_first()));
        assert(seq_wid(dvj) == slot_wid(dvj[0]) + seq_wid(dvj.drop_first()));
        lemma_slots_split(dv, j as int);
    }
    let wd = slot_width(&dst[j]);
    if oj == wd {
        return walk_step(src, i, oi, dst, j + 1, 0, pol, off);
    }
    if i == src.len() {
        return Err(Report::SizeMismatch { offset: off });
    }
    proof {
        assert(svi[0] == sv[i as int]);
        assert(svi.drop_first() =~= sv.skip(i as int + 1));
        assert(slots_height(svi) == slot_height(svi[0]) + slots_height(svi.drop_first()));
        assert(seq_wid(svi) == slot_wid(svi[0]) + seq_wid(svi.drop_first()));
        lemma_slots_split(sv, i as int);
    }
    let ws = slot_width(&src[i]);
    if oi == ws {
        return walk_step(src, i + 1, 0, dst, j, oj, pol, off);
    }
    let s_is_ref = match &src[i] {
        Slot::Reference(_) => true,
        _ => false,
    };
    let d_is_ref = match &dst[j] {
        Slot::Reference(_) => true,
        _ => false,
    };
    if oi == 0 && oj == 0 && s_is_ref && d_is_ref {
        match (&src[i], &dst[j]) {
            (Slot::Reference(sr), Slot::Reference(dr)) => {
                if dr.mutability == Mutability::Unique && sr.mutability != Mutability::Unique {
                    return Err(Report::MutabilityViolation { offset: off });
                }
                if dr.nonnull && !sr.nonnull {
                    return Err(Report::KindMismatch {
                        offset: off,
                        src_kind: Kind::Initialized,
                        dst_kind: Kind::NonZero,
                    });
                }
                if dr.nonnull && dr.scope > sr.scope {
                    return Err(Report::LifetimeViolation { offset: off });
                }
                if pol.alignment == Alignment::Static && dr.pointee.align > sr.pointee.align {
                    return Err(Report::AlignmentViolation {
                        offset: off,
                        src_align: sr.pointee.align,
                        dst_align: dr.pointee.align,
                    });
                }
                let sub_pol = Policy {
                    variance: Variance::Invariant,
                    alignment: pol.alignment,
                    transparency: pol.transparency,
                    stability: pol.stability,
                    validity: pol.validity,
                };
                proof {
                    assert(sub_pol == pol.with_variance(Variance::Invariant));
                }
                if check_compatible(&sr.pointee, &dr.pointee, sub_pol).is_err() {
                    return Err(Report::PointeeMismatch { offset: off });
                }
                return walk_step(src, i + 1, 0, dst, j + 1, 0, pol, off + POINTER_WIDTH);
            },
            _ => {
                // this arm cannot be taken: both heads are references here
                proof {
                    assert(false);
                }
                unreached()
            },
        }
    }
    let (sk, svis, sfix) = byte_class(&src[i], oi);
    let (dk, dvis, dfix) = byte_class(&dst[j], oj);
    let kinds_ok = sk == dk || (pol.variance == Variance::Variant && ((sk == Kind::NonZero && (dk
        == Kind::Initialized || dk == Kind::Uninitialized)) || (sk == Kind::Initialized && dk
        == Kind::Uninitialized)));
    if !kinds_ok {
        return Err(Report::KindMismatch { offset: off, src_kind: sk, dst_kind: dk });
    }
    let vises_ok = match dvis {
        Visibility::Public => svis == Visibility::Public || pol.variance == Variance::Variant,
        Visibility::Private => pol.transparency == Transparency::Unenforced,
    };
    if !vises_ok {
        return Err(Report::VisibilityViolation { offset: off, src_vis: svis, dst_vis: dvis });
    }
    if let Some(b) = dfix {
        let tag_ok = match sfix {
            Some(a) => a == b,
            None => false,
        };
        if !tag_ok {
            return Err(Report::DiscriminantMismatch { offset: off, src_byte: sfix, dst_byte: b });
        }
    }
    walk_step(src, i, oi + 1, dst, j, oj + 1, pol, off + 1)
}

/// Decide whether every value of the source layout is a valid instance of the
/// destination layout, under `pol`: the stability demand first, then the size
/// bound, then the structural walk, matching union alternatives
/// existentially; a failed walk is waived only by [`Validity::MaybeInvalid`].
/// On rejection, the report of the first alternative pair's walk (or of the
/// stability or size check) says what stood in the way.
pub fn check_compatible(src: &Layout, dst: &Layout, pol: Policy) -> (r: Result<(), Report>)
    requires
        layout_valid(src@),
        layout_valid(dst@),
    ensures
        r == layouts_check(src@, dst@, pol),
    decreases layout_height(src@) + layout_height(dst@), 0nat, 0nat,
{
    if pol.stability == Stability::Stable && !(src.attested && dst.attested) {
        return Err(Report::StabilityUnattested);
    }
    if dst.size > src.size {
        return Err(Report::SizeExceeded { src_size: src.size, dst_size: dst.size });
    }
    if pol.validity == Validity::MaybeInvalid {
        return Ok(());
    }
    let ghost salts = src@.alts;
    let ghost dalts = dst@.alts;
    proof {
        lemma_alts_view_index(src.alts@);
        lemma_alts_view_index(dst.alts@);
    }
    let mut i: usize = 0;
    let mut r0: Result<(), Report> = Ok(());
    while i < src.alts.len()
        invariant
            layout_valid(src@),
            layout_valid(dst@),
            stability_ok(src@, dst@, pol),
            dst@.size <= src@.size,
            pol.validity != Validity::MaybeInvalid,
            salts == src@.alts,
            dalts == dst@.alts,
            i <= src.alts@.len(),
            salts.len() == src.alts@.len(),
            dalts.len() == dst.alts@.len(),
            forall|a: int, b: int|
                #![trigger salts[a], dalts[b]]
                0 <= a < i && 0 <= b < dalts.len() ==> !(walk(salts[a], 0, dalts[b], 0, pol, 0)
                    is Ok),
            i > 0 ==> r0 == walk(salts[0], 0, dalts[0], 0, pol, 0),
        decreases src.alts@.len() - i,
    {
        let mut j: usize = 0;
        while j < dst.alts.len()
            invariant
                layout_valid(src@),
                layout_valid(dst@),
                stability_ok(src@, dst@, pol),
                dst@.size <= src@.size,
                pol.validity != Validity::MaybeInvalid,
                salts == src@.alts,
                dalts == dst@.alts,
                i < src.alts@.len(),
                j <= dst.alts@.len(),
                salts.len() == src.alts@.len(),
                dalts.len() == dst.alts@.len(),
                forall|a: int, b: int|
                    #![trigger salts[a], dalts[b]]
                    0 <= a < i && 0 <= b < dalts.len() ==> !(walk(salts[a], 0, dalts[b], 0, pol, 0)
                        is Ok),
                forall|b: int|
                    #![trigger dalts[b]]
                    0 <= b < j ==> !(walk(salts[i as int], 0, dalts[b], 0, pol, 0) is Ok),
                i > 0 ==> r0 == walk(salts[0], 0, dalts[0], 0, pol, 0),
                i == 0 && j > 0 ==> r0 == walk(salts[0], 0, dalts[0], 0, pol, 0),
            decreases dst.alts@.len() - j,
        {
            proof {
                lemma_alts_view_index(src.alts@);
                lemma_alts_view_index(dst.alts@);
                lemma_alts_split(salts, src@.size, i as int);
                lemma_alts_split(dalts, dst@.size, j as int);
                assert(salts[i as int].skip(0) =~= salts[i as int]);
                assert(dalts[j as int].skip(0) =~= dalts[j as int]);
            }
            let rw = walk_step(&src.alts[i], 0, 0, &dst.alts[j], 0, 0, pol, 0);
            if rw.is_ok() {
                proof {
                    assert(rw == walk(salts[i as int], 0, dalts[j as int], 0, pol, 0));
                    assert(some_alts_ok(salts, dalts, pol)) by {
                        reveal_with_fuel(some_alts_ok, 2);
                        assert(exists|a: int, b: int|
                            0 <= a < salts.len() && 0 <= b < dalts.len() && walk(
                                salts[a],
                                0,
                                dalts[b],
                                0,
                                pol,
                                0,
                            ) is Ok) by {
                            assert((i as int) < salts.len() && (j as int) < dalts.len() && walk(
                                salts[i as int],
                                0,
                                dalts[j as int],
                                0,
                                pol,
                                0,
                            ) is Ok);
                        }
                    }
                    assert(stability_ok(src@, dst@, pol));
                    assert(!(dst@.size > src@.size));
                    assert(some_alts_ok(src@.alts, dst@.alts, pol));
                    assert(layouts_check(src@, dst@, pol) == Ok::<(), Report>(())) by {
                        reveal_with_fuel(layouts_check, 2);
                    }
                }
                return Ok(());
            }
            if i == 0 && j == 0 {
                r0 = rw;
            }
            j = j + 1;
        }
        i = i + 1;
    }
    proof {
        reveal_with_fuel(some_alts_ok, 2);
        assert(!some_alts_ok(salts, dalts, pol));
    }
    r0
}

impl Report {
    /// The policy dimension whose relaxation would accept the rejected query,
    /// where one exists: a size overrun is never accepted; a strict-widening
    /// kind pair or a private-source byte asks for widened variance; a
    /// private destination byte asks for unenforced transparency; anything
    /// else only the global validity escape waives.
    pub open spec fn relaxation_spec(self) -> Option<Dimension> {
        match self {
            Report::StabilityUnattested => Some(Dimension::Stability),
            Report::SizeExceeded { .. } => None,
            Report::SizeMismatch { .. } => None,
            Report::KindMismatch { src_kind, dst_kind, .. } => if kind_widens(src_kind, dst_kind) {
                Some(Dimension::Variance)
            } else {
                Some(Dimension::Validity)
            },
            Report::VisibilityViolation { dst_vis, .. } => if dst_vis == Visibility::Private {
                Some(Dimension::Transparency)
            } else {
                Some(Dimension::Variance)
            },
            Report::DiscriminantMismatch { .. } => Some(Dimension::Validity),
            Report::MutabilityViolation { .. } => Some(Dimension::Validity),
            Report::LifetimeViolation { .. } => Some(Dimension::Validity),
            Report::AlignmentViolation { .. } => Some(Dimension::Alignment),
            Report::PointeeMismatch { .. } => Some(Dimension::Validity),
        }
    }

    /// The policy dimension whose relaxation would accept the rejected query.
    pub fn relaxation(&self) -> (r: Option<Dimension>)
        ensures
            r == self.relaxation_spec(),
    {
        match self {
            Report::StabilityUnattested => Some(Dimension::Stability),
            Report::SizeExceeded { .. } => None,
            Report::SizeMismatch { .. } => None,
            Report::KindMismatch { src_kind, dst_kind, .. } => {
                let widening = (*src_kind == Kind::NonZero && (*dst_kind == Kind::Initialized
                    || *dst_kind == Kind::Uninitialized)) || (*src_kind == Kind::Initialized
                    && *dst_kind == Kind::Uninitialized);
                if widening {
                    Some(Dimension::Variance)
                } else {
                    Some(Dimension::Validity)
                }
            },
            Report::VisibilityViolation { dst_vis, .. } => {
                if *dst_vis == Visibility::Private {
                    Some(Dimension::Transparency)
                } else {
                    Some(Dimension::Variance)
                }
            },
            Report::DiscriminantMismatch { .. } => Some(Dimension::Validity),
            Report::MutabilityViolation { .. } => Some(Dimension::Validity),
            Report::LifetimeViolation { .. } => Some(Dimension::Validity),
            Report::AlignmentViolation { .. } => Some(Dimension::Alignment),
            Report::PointeeMismatch { .. } => Some(Dimension::Validity),
        }
    }
}

/// The one-way widening relation between layouts: `dst.subsumes(src)` says
/// every value of `src` may be read as a `dst`, under the safe owned-value
/// policy (validity may widen; alignment,
/// transparency and stability are all demanded).
pub trait Subsumes {
    /// What the query demands of the two values.
    spec fn subsumes_req(&self, source: &Self) -> bool;

    /// What `subsumes` decides.
    spec fn subsumes_spec(&self, source: &Self) -> bool;

    fn subsumes(&self, source: &Self) -> (b: bool)
        requires
            self.subsumes_req(source),
        ensures
            b == self.subsumes_spec(source),
    ;
}

impl Subsumes for Layout {
    open spec fn subsumes_req(&self, source: &Self) -> bool {
        layout_valid(source@) && layout_valid(self@)
    }

    open spec fn subsumes_spec(&self, source: &Self) -> bool {
        layouts_check(source@, self@, Policy::default_spec()) is Ok
    }

    fn subsumes(&self, source: &Self) -> bool {
        check_compatible(source, self, Policy::default()).is_ok()
    }
}

/// The one-way exact relation between layouts: `dst.equivalent(src)` says
/// every value of `src` may be read as a `dst` without widening any byte's
/// validity class.
pub trait Equivalent {
    /// What the query demands of the two values.
    spec fn equivalent_req(&self, source: &Self) -> bool;

    /// What `equivalent` decides.
    spec fn equivalent_spec(&self, source: &Self) -> bool;

    fn equivalent(&self, source: &Self) -> (b: bool)
        requires
            self.equivalent_req(source),
        ensures
            b == self.equivalent_spec(source),
    ;
}

impl Equivalent for Layout {
    open spec fn equivalent_req(&self, source: &Self) -> bool {
        layout_valid(source@) && layout_valid(self@)
    }

    open spec fn equivalent_spec(&self, source: &Self) -> bool {
        layouts_check(source@, self@, Policy::strict_spec()) is Ok
    }

    fn equivalent(&self, source: &Self) -> bool {
        check_compatible(source, self, Policy::strict()).is_ok()
    }
}

} // verus!
