//! The laws the checker obeys, stated and proved once and for all: size never
//! grows, byte-only layouts are compared pointwise, padding may be gained but
//! never read, transparency gates exactly the private destination bytes, a
//! reference's pointee alignment may relax but never tighten, and every
//! layout in normal form is compatible with itself under the strictest
//! policy.

use crate::compat::{
    byte_ok, kind_ok, layouts_check, mut_ok, some_alts_ok, stability_ok, vis_ok, walk,
};
use crate::descriptor::{
    append_to_all, cross, eff_align, layout_of, members_padded_alts, pad_slots, prefix_all,
    rep_alts, struct_fold, tag_bytes, union_members, variant_layout, variants_members,
    well_formed, Descriptor, Field, Shape, VariantDef,
};
use crate::num::round_up;
use crate::layout::{alts_height, alts_valid, layout_height, layout_valid, LayoutV};
use crate::policy::{Alignment, Policy, Validity, Variance};
use crate::slot::{
    class_at, rem_wid, seq_wid, slot_height, slot_valid, slot_wid, slots_height, slots_valid,
    vis_min, ByteClass, Kind, SlotV, Visibility,
};
use vstd::prelude::*;

verus! {

/// A destination larger than its source is rejected, whatever the policy
/// says: neither the validity escape nor any other dimension waives the size
/// bound.
pub proof fn lemma_size_non_growth(s: LayoutV, d: LayoutV, pol: Policy)
    requires
        d.size > s.size,
    ensures
        layouts_check(s, d, pol) is Err,
{
}

/// Whether a run holds byte slots alone (no references).
pub open spec fn bytes_only(s: Seq<SlotV>) -> bool
    decreases s,
{
    if s.len() == 0 {
        true
    } else {
        !(s[0] is Reference) && bytes_only(s.drop_first())
    }
}

/// The class of the byte at absolute offset `k` of a run (a vacuous public
/// padding byte beyond the run's end).
pub open spec fn run_class_at(s: Seq<SlotV>, k: nat) -> ByteClass
    decreases s,
{
    if s.len() == 0 {
        ByteClass { kind: Kind::Uninitialized, vis: Visibility::Public, fixed: None }
    } else if k < slot_wid(s[0]) {
        class_at(s[0], k)
    } else {
        run_class_at(s.drop_first(), (k - slot_wid(s[0])) as nat)
    }
}

/// The structural walk over byte-only runs is exactly the pointwise byte
/// comparison: it accepts if and only if the destination claims no more bytes
/// than the source still has, and at every remaining position the byte pair
/// satisfies the kind, visibility and discriminant rules.
pub proof fn lemma_walk_pointwise(
    src: Seq<SlotV>,
    oi: nat,
    dst: Seq<SlotV>,
    oj: nat,
    pol: Policy,
    off: nat,
)
    requires
        bytes_only(src),
        bytes_only(dst),
        src.len() > 0 ==> oi <= slot_wid(src[0]),
        dst.len() > 0 ==> oj <= slot_wid(dst[0]),
    ensures
        walk(src, oi, dst, oj, pol, off) is Ok <==> (rem_wid(dst, oj) <= rem_wid(src, oi)
            && forall|k: nat|
            k < rem_wid(dst, oj) ==> #[trigger] byte_ok(
                run_class_at(src, oi + k),
                run_class_at(dst, oj + k),
                pol,
            )),
    decreases src.len() + dst.len(), rem_wid(src, oi) + rem_wid(dst, oj),
{
    if dst.len() == 0 {
        assert(rem_wid(dst, oj) == 0);
    } else if oj >= slot_wid(dst[0]) {
        assert(seq_wid(dst) == slot_wid(dst[0]) + seq_wid(dst.drop_first()));
        lemma_walk_pointwise(src, oi, dst.drop_first(), 0, pol, off);
        assert(rem_wid(dst, oj) == rem_wid(dst.drop_first(), 0));
        let remd = rem_wid(dst, oj);
        assert forall|k: nat|
            #![trigger run_class_at(dst, oj + k)]
            k < remd implies run_class_at(dst, oj + k) == run_class_at(
            dst.drop_first(),
            (0 + k) as nat,
        ) by {
            assert(oj + k >= slot_wid(dst[0]));
        }
        let a_form = forall|k: nat|
            k < remd ==> #[trigger] byte_ok(
                run_class_at(src, oi + k),
                run_class_at(dst, oj + k),
                pol,
            );
        let b_form = forall|k: nat|
            k < remd ==> #[trigger] byte_ok(
                run_class_at(src, oi + k),
                run_class_at(dst.drop_first(), (0 + k) as nat),
                pol,
            );
        if a_form {
            assert forall|k: nat| k < remd implies #[trigger] byte_ok(
                run_class_at(src, oi + k),
                run_class_at(dst.drop_first(), (0 + k) as nat),
                pol,
            ) by {
                assert(byte_ok(run_class_at(src, oi + k), run_class_at(dst, oj + k), pol));
            }
        }
        if b_form {
            assert forall|k: nat| k < remd implies #[trigger] byte_ok(
                run_class_at(src, oi + k),
                run_class_at(dst, oj + k),
                pol,
            ) by {
                assert(byte_ok(
                    run_class_at(src, oi + k),
                    run_class_at(dst.drop_first(), (0 + k) as nat),
                    pol,
                ));
                assert(run_class_at(dst, oj + k) == run_class_at(dst.drop_first(), (0 + k) as nat));
            }
        }
    } else if src.len() == 0 {
        assert(rem_wid(src, oi) == 0);
        assert(seq_wid(dst) >= slot_wid(dst[0]));
        assert(rem_wid(dst, oj) > 0);
    } else if oi >= slot_wid(src[0]) {
        assert(seq_wid(src) == slot_wid(src[0]) + seq_wid(src.drop_first()));
        lemma_walk_pointwise(src.drop_first(), 0, dst, oj, pol, off);
        assert(rem_wid(src, oi) == rem_wid(src.drop_first(), 0));
        let remd = rem_wid(dst, oj);
        assert forall|k: nat|
            #![trigger run_class_at(src, oi + k)]
            k < remd implies run_class_at(src, oi + k) == run_class_at(
            src.drop_first(),
            (0 + k) as nat,
        ) by {
            assert(oi + k >= slot_wid(src[0]));
        }
        let a_form = forall|k: nat|
            k < remd ==> #[trigger] byte_ok(
                run_class_at(src, oi + k),
                run_class_at(dst, oj + k),
                pol,
            );
        let b_form = forall|k: nat|
            k < remd ==> #[trigger] byte_ok(
                run_class_at(src.drop_first(), (0 + k) as nat),
                run_class_at(dst, oj + k),
                pol,
            );
        if a_form {
            assert forall|k: nat| k < remd implies #[trigger] byte_ok(
                run_class_at(src.drop_first(), (0 + k) as nat),
                run_class_at(dst, oj + k),
                pol,
            ) by {
                assert(byte_ok(run_class_at(src, oi + k), run_class_at(dst, oj + k), pol));
                assert(run_class_at(src, oi + k) == run_class_at(src.drop_first(), (0 + k) as nat));
            }
        }
        if b_form {
            assert forall|k: nat| k < remd implies #[trigger] byte_ok(
                run_class_at(src, oi + k),
                run_class_at(dst, oj + k),
                pol,
            ) by {
                assert(byte_ok(
                    run_class_at(src.drop_first(), (0 + k) as nat),
                    run_class_at(dst, oj + k),
                    pol,
                ));
                assert(run_class_at(src, oi + k) == run_class_at(src.drop_first(), (0 + k) as nat));
            }
        }
    } else {
        assert(seq_wid(src) == slot_wid(src[0]) + seq_wid(src.drop_first()));
        assert(seq_wid(dst) == slot_wid(dst[0]) + seq_wid(dst.drop_first()));
        let cs = class_at(src[0], oi);
        let cd = class_at(dst[0], oj);
        lemma_walk_pointwise(src, oi + 1, dst, oj + 1, pol, off + 1);
        assert(run_class_at(src, oi + 0) == cs);
        assert(run_class_at(dst, oj + 0) == cd);
        let head_ok = byte_ok(cs, cd, pol);
        assert(head_ok == (kind_ok(cs.kind, cd.kind, pol.variance) && vis_ok(cs.vis, cd.vis, pol)
            && (cd.fixed is Some ==> cs.fixed == cd.fixed)));
        let tail_ok = rem_wid(dst, oj + 1) <= rem_wid(src, oi + 1) && forall|k: nat|
            k < rem_wid(dst, oj + 1) ==> #[trigger] byte_ok(
                run_class_at(src, oi + 1 + k),
                run_class_at(dst, oj + 1 + k),
                pol,
            );
        let whole_ok = rem_wid(dst, oj) <= rem_wid(src, oi) && forall|k: nat|
            k < rem_wid(dst, oj) ==> #[trigger] byte_ok(
                run_class_at(src, oi + k),
                run_class_at(dst, oj + k),
                pol,
            );
        assert(rem_wid(dst, oj) == rem_wid(dst, oj + 1) + 1);
        assert(rem_wid(src, oi) == rem_wid(src, oi + 1) + 1);
        if head_ok && tail_ok {
            assert forall|k: nat| k < rem_wid(dst, oj) implies #[trigger] byte_ok(
                run_class_at(src, oi + k),
                run_class_at(dst, oj + k),
                pol,
            ) by {
                if k == 0 {
                } else {
                    assert(byte_ok(
                        run_class_at(src, (oi + 1 + (k - 1)) as nat),
                        run_class_at(dst, (oj + 1 + (k - 1)) as nat),
                        pol,
                    ));
                    assert((oi + 1 + (k - 1)) as nat == oi + k);
                    assert((oj + 1 + (k - 1)) as nat == oj + k);
                }
            }
            assert(whole_ok);
        }
        if whole_ok {
            assert(byte_ok(run_class_at(src, oi + 0), run_class_at(dst, oj + 0), pol));
            assert(head_ok);
            assert forall|k: nat| k < rem_wid(dst, oj + 1) implies #[trigger] byte_ok(
                run_class_at(src, oi + 1 + k),
                run_class_at(dst, oj + 1 + k),
                pol,
            ) by {
                assert(byte_ok(run_class_at(src, oi + (k + 1)), run_class_at(dst, oj + (k + 1)), pol));
                assert(oi + (k + 1) == oi + 1 + k);
                assert(oj + (k + 1) == oj + 1 + k);
            }
            assert(tail_ok);
        }
    }
}

/// The layout-level pointwise principle for byte-only layouts of one
/// alternative each: the checker accepts exactly where the stability demand
/// holds, the destination is no larger, and (unless the validity escape is
/// taken) every destination byte position accepts its source byte.
pub proof fn lemma_bytes_compatible(s: LayoutV, d: LayoutV, pol: Policy)
    requires
        layout_valid(s),
        layout_valid(d),
        s.alts.len() == 1,
        d.alts.len() == 1,
        bytes_only(s.alts[0]),
        bytes_only(d.alts[0]),
    ensures
        layouts_check(s, d, pol) is Ok <==> (stability_ok(s, d, pol) && d.size <= s.size && (
        pol.validity == Validity::MaybeInvalid || forall|k: nat|
            k < d.size ==> #[trigger] byte_ok(
                run_class_at(s.alts[0], k),
                run_class_at(d.alts[0], k),
                pol,
            ))),
{
    let sa = s.alts[0];
    let da = d.alts[0];
    assert(seq_wid(sa) == s.size && seq_wid(da) == d.size) by {
        assert(alts_valid(s.alts, s.size));
        assert(alts_valid(d.alts, d.size));
    }
    lemma_walk_pointwise(sa, 0, da, 0, pol, 0);
    assert(rem_wid(sa, 0) == s.size);
    assert(rem_wid(da, 0) == d.size);
    let w_ok = walk(sa, 0, da, 0, pol, 0) is Ok;
    assert(some_alts_ok(s.alts, d.alts, pol) == w_ok) by {
        if w_ok {
            assert(0 < s.alts.len() && 0 < d.alts.len() && walk(s.alts[0], 0, d.alts[0], 0, pol, 0)
                is Ok);
        }
        if some_alts_ok(s.alts, d.alts, pol) {
            let (i, j) = choose|i: int, j: int|
                #![trigger s.alts[i], d.alts[j]]
                0 <= i < s.alts.len() && 0 <= j < d.alts.len() && walk(
                    s.alts[i],
                    0,
                    d.alts[j],
                    0,
                    pol,
                    0,
                ) is Ok;
            assert(i == 0 && j == 0);
        }
    }
    let shifted = forall|k: nat|
        k < rem_wid(da, 0) ==> #[trigger] byte_ok(
            run_class_at(sa, 0 + k),
            run_class_at(da, 0 + k),
            pol,
        );
    let plain = forall|k: nat|
        k < d.size ==> #[trigger] byte_ok(run_class_at(sa, k), run_class_at(da, k), pol);
    if shifted {
        assert forall|k: nat| k < d.size implies #[trigger] byte_ok(
            run_class_at(sa, k),
            run_class_at(da, k),
            pol,
        ) by {
            assert(byte_ok(run_class_at(sa, 0 + k), run_class_at(da, 0 + k), pol));
            assert(0 + k == k);
        }
    }
    if plain {
        assert forall|k: nat| k < rem_wid(da, 0) implies #[trigger] byte_ok(
            run_class_at(sa, 0 + k),
            run_class_at(da, 0 + k),
            pol,
        ) by {
            assert(byte_ok(run_class_at(sa, k), run_class_at(da, k), pol));
            assert(0 + k == k);
        }
    }
}

/// Padding monotonicity, the way in: a gapless, public, initialized source
/// region fills any byte-only destination of no greater size whose bytes are
/// public, demand no tag, and are initialized or padding, under widening
/// variance.
pub proof fn lemma_padding_monotonic(s: LayoutV, d: LayoutV, pol: Policy)
    requires
        layout_valid(s),
        layout_valid(d),
        s.alts.len() == 1,
        d.alts.len() == 1,
        bytes_only(s.alts[0]),
        bytes_only(d.alts[0]),
        stability_ok(s, d, pol),
        pol.variance == Variance::Variant,
        d.size <= s.size,
        forall|k: nat|
            k < d.size ==> (#[trigger] run_class_at(s.alts[0], k)).kind == Kind::Initialized
                && run_class_at(s.alts[0], k).vis == Visibility::Public,
        forall|k: nat|
            k < d.size ==> ((#[trigger] run_class_at(d.alts[0], k)).kind == Kind::Initialized
                || run_class_at(d.alts[0], k).kind == Kind::Uninitialized) && run_class_at(
                d.alts[0],
                k,
            ).vis == Visibility::Public && run_class_at(d.alts[0], k).fixed is None,
    ensures
        layouts_check(s, d, pol) is Ok,
{
    lemma_bytes_compatible(s, d, pol);
    assert forall|k: nat| k < d.size implies #[trigger] byte_ok(
        run_class_at(s.alts[0], k),
        run_class_at(d.alts[0], k),
        pol,
    ) by {
        assert(run_class_at(s.alts[0], k).kind == Kind::Initialized);
        assert(run_class_at(d.alts[0], k).vis == Visibility::Public);
    }
}

/// Padding monotonicity, the way back: a source padding byte can never
/// produce an initialized destination byte, whatever else holds.
pub proof fn lemma_padding_not_reversible(s: LayoutV, d: LayoutV, pol: Policy, k: nat)
    requires
        layout_valid(s),
        layout_valid(d),
        s.alts.len() == 1,
        d.alts.len() == 1,
        bytes_only(s.alts[0]),
        bytes_only(d.alts[0]),
        pol.validity == Validity::AlwaysValid,
        k < d.size,
        run_class_at(s.alts[0], k).kind == Kind::Uninitialized,
        run_class_at(d.alts[0], k).kind != Kind::Uninitialized,
    ensures
        layouts_check(s, d, pol) is Err,
{
    lemma_bytes_compatible(s, d, pol);
    assert(!byte_ok(run_class_at(s.alts[0], k), run_class_at(d.alts[0], k), pol));
}

/// Visibility gating, the permissive half: where every destination byte is
/// public, the transparency dimension cannot change the verdict.
pub proof fn lemma_transparency_public_dst(s: LayoutV, d: LayoutV, pol: Policy)
    requires
        layout_valid(s),
        layout_valid(d),
        s.alts.len() == 1,
        d.alts.len() == 1,
        bytes_only(s.alts[0]),
        bytes_only(d.alts[0]),
        forall|k: nat|
            k < d.size ==> (#[trigger] run_class_at(d.alts[0], k)).vis == Visibility::Public,
    ensures
        layouts_check(
            s,
            d,
            Policy { transparency: crate::policy::Transparency::Enforced, ..pol },
        ) is Ok <==> layouts_check(
            s,
            d,
            Policy { transparency: crate::policy::Transparency::Unenforced, ..pol },
        ) is Ok,
{
    let pe = Policy { transparency: crate::policy::Transparency::Enforced, ..pol };
    let pu = Policy { transparency: crate::policy::Transparency::Unenforced, ..pol };
    lemma_bytes_compatible(s, d, pe);
    lemma_bytes_compatible(s, d, pu);
    let fe = forall|k: nat|
        k < d.size ==> #[trigger] byte_ok(
            run_class_at(s.alts[0], k),
            run_class_at(d.alts[0], k),
            pe,
        );
    let fu = forall|k: nat|
        k < d.size ==> #[trigger] byte_ok(
            run_class_at(s.alts[0], k),
            run_class_at(d.alts[0], k),
            pu,
        );
    if fe {
        assert forall|k: nat| k < d.size implies #[trigger] byte_ok(
            run_class_at(s.alts[0], k),
            run_class_at(d.alts[0], k),
            pu,
        ) by {
            assert(byte_ok(run_class_at(s.alts[0], k), run_class_at(d.alts[0], k), pe));
            assert(run_class_at(d.alts[0], k).vis == Visibility::Public);
        }
    }
    if fu {
        assert forall|k: nat| k < d.size implies #[trigger] byte_ok(
            run_class_at(s.alts[0], k),
            run_class_at(d.alts[0], k),
            pe,
        ) by {
            assert(byte_ok(run_class_at(s.alts[0], k), run_class_at(d.alts[0], k), pu));
            assert(run_class_at(d.alts[0], k).vis == Visibility::Public);
        }
    }
}

/// Visibility gating, the restrictive half: one private destination byte
/// rejects the whole query under enforced transparency, whatever the source
/// holds there.
pub proof fn lemma_transparency_private_dst(s: LayoutV, d: LayoutV, pol: Policy, k: nat)
    requires
        layout_valid(s),
        layout_valid(d),
        s.alts.len() == 1,
        d.alts.len() == 1,
        bytes_only(s.alts[0]),
        bytes_only(d.alts[0]),
        pol.transparency == crate::policy::Transparency::Enforced,
        pol.validity == Validity::AlwaysValid,
        k < d.size,
        run_class_at(d.alts[0], k).vis == Visibility::Private,
    ensures
        layouts_check(s, d, pol) is Err,
{
    lemma_bytes_compatible(s, d, pol);
    assert(!byte_ok(run_class_at(s.alts[0], k), run_class_at(d.alts[0], k), pol));
}

/// Alignment relaxation, the forbidden direction: between two lone
/// references, a destination pointee more strictly aligned than the source
/// pointee is rejected under static alignment checking.
pub proof fn lemma_alignment_relaxation(s: LayoutV, d: LayoutV, pol: Policy)
    requires
        layout_valid(s),
        layout_valid(d),
        s.alts.len() == 1,
        d.alts.len() == 1,
        s.alts[0].len() == 1,
        d.alts[0].len() == 1,
        s.alts[0][0] is Reference,
        d.alts[0][0] is Reference,
        pol.alignment == Alignment::Static,
        pol.validity == Validity::AlwaysValid,
        d.alts[0][0]->Reference_pointee.align > s.alts[0][0]->Reference_pointee.align,
    ensures
        layouts_check(s, d, pol) is Err,
{
    let sa = s.alts[0];
    let da = d.alts[0];
    assert(walk(sa, 0, da, 0, pol, 0) is Err);
    assert(!some_alts_ok(s.alts, d.alts, pol)) by {
        if some_alts_ok(s.alts, d.alts, pol) {
            let (i, j) = choose|i: int, j: int|
                #![trigger s.alts[i], d.alts[j]]
                0 <= i < s.alts.len() && 0 <= j < d.alts.len() && walk(
                    s.alts[i],
                    0,
                    d.alts[j],
                    0,
                    pol,
                    0,
                ) is Ok;
            assert(i == 0 && j == 0);
        }
    }
}

/// The normal, fully disclosed form a layout must have to be its own source
/// under the strictest policy: no vacuous zero-width slots (nothing the
/// calculator emits), every byte public, and every layout on the way —
/// including each reference pointee — attested.
pub open spec fn slot_refl(s: SlotV) -> bool
    decreases s,
{
    match s {
        SlotV::Bytes { vis, width, .. } => vis == Visibility::Public && width > 0,
        SlotV::Discriminant { vis, pattern } => vis == Visibility::Public && pattern.len() > 0,
        SlotV::Reference { vis, pointee, .. } => vis == Visibility::Public && layout_refl(pointee),
    }
}

pub open spec fn run_refl(s: Seq<SlotV>) -> bool
    decreases s,
{
    if s.len() == 0 {
        true
    } else {
        slot_refl(s[0]) && run_refl(s.drop_first())
    }
}

pub open spec fn alts_refl(a: Seq<Seq<SlotV>>) -> bool
    decreases a,
{
    if a.len() == 0 {
        true
    } else {
        run_refl(a[0]) && alts_refl(a.drop_first())
    }
}

pub open spec fn layout_refl(l: LayoutV) -> bool
    decreases l,
{
    l.attested && alts_refl(l.alts)
}

/// The walk from any one position of a run against the same position of the
/// same run accepts, for a run in normal, fully disclosed form.
proof fn lemma_walk_diagonal(s: Seq<SlotV>, o: nat, pol: Policy, off: nat)
    requires
        run_refl(s),
        slots_valid(s),
        s.len() > 0 ==> o <= slot_wid(s[0]),
        pol == Policy::strict_spec(),
    ensures
        walk(s, o, s, o, pol, off) is Ok,
    decreases slots_height(s) + slots_height(s), s.len() + s.len(), rem_wid(s, o) + rem_wid(s, o),
{
    if s.len() == 0 {
        return ;
    }
    assert(seq_wid(s) == slot_wid(s[0]) + seq_wid(s.drop_first()));
    assert(slots_height(s) == slot_height(s[0]) + slots_height(s.drop_first()));
    assert(slot_refl(s[0]) && run_refl(s.drop_first()));
    assert(slot_valid(s[0]) && slots_valid(s.drop_first()));
    if o >= slot_wid(s[0]) {
        // both heads are exhausted: the walk drops the destination head, then
        // the source head, and stands on the diagonal again
        let t = s.drop_first();
        assert(walk(s, o, s, o, pol, off) == walk(s, o, t, 0, pol, off));
        if t.len() == 0 {
            assert(walk(s, o, t, 0, pol, off) is Ok);
        } else {
            assert(slot_refl(t[0]) && run_refl(t.drop_first()));
            assert(slot_wid(t[0]) > 0);
            assert(walk(s, o, t, 0, pol, off) == walk(t, 0, t, 0, pol, off));
            lemma_walk_diagonal(t, 0, pol, off);
        }
        return ;
    }
    if o == 0 && s[0] is Reference {
        let p = s[0]->Reference_pointee;
        assert(layout_valid(p));
        assert(layout_refl(p));
        lemma_layout_reflexive(p, pol);
        assert(pol.with_variance(Variance::Invariant) == pol);
        assert(mut_ok(s[0]->Reference_mutability, s[0]->Reference_mutability));
        let t = s.drop_first();
        assert(walk(s, 0, s, 0, pol, off) == walk(
            t,
            0,
            t,
            0,
            pol,
            (off + crate::slot::POINTER_WIDTH) as nat,
        ));
        lemma_walk_diagonal(t, 0, pol, (off + crate::slot::POINTER_WIDTH) as nat);
    } else {
        // one byte of the head, against itself: the classes agree
        let c = class_at(s[0], o);
        assert(c.vis == Visibility::Public);
        assert(byte_ok(c, c, pol));
        lemma_walk_diagonal(s, o + 1, pol, off + 1);
    }
}

/// Reflexivity: every valid layout in normal, fully disclosed form is
/// compatible with itself under the strictest policy — exact variance, static
/// alignment, enforced transparency, demanded stability, and all bit patterns
/// valid.
pub proof fn lemma_layout_reflexive(l: LayoutV, pol: Policy)
    requires
        layout_valid(l),
        layout_refl(l),
        pol == Policy::strict_spec(),
    ensures
        layouts_check(l, l, pol) is Ok,
    decreases layout_height(l) + layout_height(l), 0nat, 0nat,
{
    assert(alts_valid(l.alts, l.size));
    assert(alts_height(l.alts) == slots_height(l.alts[0]) + alts_height(l.alts.drop_first()));
    assert(run_refl(l.alts[0]) && slots_valid(l.alts[0]) && seq_wid(l.alts[0]) == l.size);
    lemma_walk_diagonal(l.alts[0], 0, pol, 0);
    assert(some_alts_ok(l.alts, l.alts, pol)) by {
        assert(0 < l.alts.len() && walk(l.alts[0], 0, l.alts[0], 0, pol, 0) is Ok);
    }
}

/// Whether a descriptor is fully disclosed: attested at every level, with
/// every field public — the form whose layout is its own source under the
/// strictest policy.
pub open spec fn desc_disclosed(d: Descriptor) -> bool
    decreases d,
{
    d.attested && match d.shape {
        Shape::Primitive { .. } => true,
        Shape::Struct { fields } => fields_disclosed(fields@),
        Shape::Union { fields } => fields_disclosed(fields@),
        Shape::Variants { variants, .. } => variants_disclosed(variants@),
        Shape::Reference { pointee, .. } => desc_disclosed(*pointee),
        Shape::RawPointer { pointee } => desc_disclosed(*pointee),
        Shape::Array(a) => desc_disclosed(*a.element),
    }
}

pub open spec fn fields_disclosed(fields: Seq<Field>) -> bool
    decreases fields,
{
    if fields.len() == 0 {
        true
    } else {
        fields[0].vis == Visibility::Public && desc_disclosed(fields[0].desc) && fields_disclosed(
            fields.drop_first(),
        )
    }
}

pub open spec fn variants_disclosed(variants: Seq<VariantDef>) -> bool
    decreases variants,
{
    if variants.len() == 0 {
        true
    } else {
        fields_disclosed(variants[0].fields@) && variants_disclosed(variants.drop_first())
    }
}

/// A single-slot run is in normal form exactly when its slot is.
proof fn lemma_run_single_refl(s: SlotV)
    ensures
        run_refl(seq![s]) == slot_refl(s),
{
    let run = seq![s];
    assert(run.drop_first() =~= Seq::<SlotV>::empty());
    assert(run_refl(run.drop_first()));
}

/// A single-run alternative set is in normal form exactly when its run is.
proof fn lemma_alts_single_refl(x: Seq<SlotV>)
    ensures
        alts_refl(seq![x]) == run_refl(x),
{
    let alts = seq![x];
    assert(alts.drop_first() =~= Seq::<Seq<SlotV>>::empty());
    assert(alts_refl(alts.drop_first()));
}

/// A padding run under the public cap is in normal form.
proof fn lemma_pad_refl(w: nat)
    ensures
        run_refl(pad_slots(Visibility::Public, w)),
{
    if w > 0 {
        let p = pad_slots(Visibility::Public, w);
        lemma_run_single_refl(p[0]);
        assert(p =~= seq![p[0]]);
    }
}

/// Normal form distributes over concatenation of runs.
proof fn lemma_run_refl_concat(a: Seq<SlotV>, b: Seq<SlotV>)
    ensures
        run_refl(a + b) == (run_refl(a) && run_refl(b)),
    decreases a,
{
    if a.len() == 0 {
        assert(a + b =~= b);
    } else {
        assert((a + b).drop_first() =~= a.drop_first() + b);
        lemma_run_refl_concat(a.drop_first(), b);
    }
}

/// Normal form distributes over concatenation of alternative sets.
proof fn lemma_alts_refl_concat(x: Seq<Seq<SlotV>>, y: Seq<Seq<SlotV>>)
    ensures
        alts_refl(x + y) == (alts_refl(x) && alts_refl(y)),
    decreases x,
{
    if x.len() == 0 {
        assert(x + y =~= y);
    } else {
        assert((x + y).drop_first() =~= x.drop_first() + y);
        lemma_alts_refl_concat(x.drop_first(), y);
        assert((x + y)[0] == x[0]);
    }
}

/// Appending one normal-form tail keeps every alternative in normal form.
proof fn lemma_append_refl(alts: Seq<Seq<SlotV>>, tail: Seq<SlotV>)
    requires
        alts_refl(alts),
        run_refl(tail),
    ensures
        alts_refl(append_to_all(alts, tail)),
    decreases alts,
{
    let out = append_to_all(alts, tail);
    if alts.len() > 0 {
        assert(out[0] == alts[0] + tail);
        lemma_run_refl_concat(alts[0], tail);
        assert(out.drop_first() =~= append_to_all(alts.drop_first(), tail));
        lemma_append_refl(alts.drop_first(), tail);
    }
}

/// Prefixing one normal-form run keeps every alternative in normal form.
proof fn lemma_prefix_refl(x: Seq<SlotV>, b: Seq<Seq<SlotV>>)
    requires
        run_refl(x),
        alts_refl(b),
    ensures
        alts_refl(prefix_all(x, b)),
    decreases b,
{
    let out = prefix_all(x, b);
    if b.len() > 0 {
        assert(out[0] == x + b[0]);
        lemma_run_refl_concat(x, b[0]);
        assert(out.drop_first() =~= prefix_all(x, b.drop_first()));
        lemma_prefix_refl(x, b.drop_first());
    }
}

/// The cross product of normal-form alternative sets is in normal form.
proof fn lemma_cross_refl(a: Seq<Seq<SlotV>>, b: Seq<Seq<SlotV>>)
    requires
        alts_refl(a),
        alts_refl(b),
    ensures
        alts_refl(cross(a, b)),
    decreases a,
{
    if a.len() > 0 {
        lemma_prefix_refl(a[0], b);
        lemma_cross_refl(a.drop_first(), b);
        lemma_alts_refl_concat(prefix_all(a[0], b), cross(a.drop_first(), b));
    }
}

/// Repetition keeps normal form.
proof fn lemma_rep_refl(a: Seq<Seq<SlotV>>, k: nat)
    requires
        alts_refl(a),
    ensures
        alts_refl(rep_alts(a, k)),
    decreases k,
{
    if k == 0 {
        lemma_alts_single_refl(Seq::empty());
    } else {
        lemma_rep_refl(a, (k - 1) as nat);
        lemma_cross_refl(a, rep_alts(a, (k - 1) as nat));
    }
}

/// Whether every member layout's alternatives are in normal form (the
/// member's own attestation does not matter: only the combined layout's
/// attestation is read).
spec fn members_all_refl(ms: Seq<LayoutV>) -> bool
    decreases ms,
{
    if ms.len() == 0 {
        true
    } else {
        alts_refl(ms[0].alts) && members_all_refl(ms.drop_first())
    }
}

/// Padding members up to the common size keeps normal form.
proof fn lemma_members_padded_refl(ms: Seq<LayoutV>, size: nat, cap: Visibility)
    requires
        members_all_refl(ms),
        cap == Visibility::Public,
    ensures
        alts_refl(members_padded_alts(ms, size, cap)),
    decreases ms,
{
    if ms.len() > 0 {
        let pad = pad_slots(cap, (size - ms[0].size) as nat);
        lemma_pad_refl((size - ms[0].size) as nat);
        lemma_append_refl(ms[0].alts, pad);
        lemma_members_padded_refl(ms.drop_first(), size, cap);
        lemma_alts_refl_concat(
            append_to_all(ms[0].alts, pad),
            members_padded_alts(ms.drop_first(), size, cap),
        );
    }
}

/// The struct calculator keeps a normal-form state in normal form, for
/// disclosed fields under the public cap.
proof fn lemma_struct_fold_refl(
    fields: Seq<Field>,
    cap: Visibility,
    pack: Option<usize>,
    st: crate::descriptor::Partial,
)
    requires
        crate::descriptor::fields_wf(fields),
        fields_disclosed(fields),
        cap == Visibility::Public,
        alts_refl(st.alts),
    ensures
        struct_fold(fields, cap, pack, st) matches Some(end) ==> alts_refl(end.alts),
    decreases fields, 0nat,
{
    if fields.len() > 0 {
        let f = fields[0];
        lemma_layout_of_refl_form(f.desc, vis_min(f.vis, cap));
        match layout_of(f.desc, vis_min(f.vis, cap)) {
            None => {},
            Some(fl) => {
                let ea = eff_align(fl.align, pack);
                let padded = round_up(st.offset, ea);
                if !(padded > usize::MAX || padded + fl.size > usize::MAX) {
                    let pad = pad_slots(cap, (padded - st.offset) as nat);
                    lemma_pad_refl((padded - st.offset) as nat);
                    lemma_append_refl(st.alts, pad);
                    lemma_cross_refl(append_to_all(st.alts, pad), fl.alts);
                    lemma_struct_fold_refl(
                        fields.drop_first(),
                        cap,
                        pack,
                        crate::descriptor::Partial {
                            offset: (padded + fl.size) as nat,
                            align: crate::descriptor::nat_max(st.align, ea),
                            alts: cross(append_to_all(st.alts, pad), fl.alts),
                        },
                    );
                }
            },
        }
    }
}

/// Every union member's layout is in normal form, for disclosed members.
proof fn lemma_union_members_refl(fields: Seq<Field>, cap: Visibility)
    requires
        crate::descriptor::fields_wf(fields),
        fields_disclosed(fields),
        cap == Visibility::Public,
    ensures
        union_members(fields, cap) matches Some(ms) ==> members_all_refl(ms),
    decreases fields, 0nat,
{
    if fields.len() > 0 {
        lemma_layout_of_refl_form(fields[0].desc, vis_min(fields[0].vis, cap));
        lemma_union_members_refl(fields.drop_first(), cap);
        match layout_of(fields[0].desc, vis_min(fields[0].vis, cap)) {
            None => {},
            Some(fl) => match union_members(fields.drop_first(), cap) {
                None => {},
                Some(rest) => {
                    let ms = seq![fl] + rest;
                    assert(ms[0] == fl);
                    assert(ms.drop_first() =~= rest);
                },
            },
        }
    }
}

/// One variant's layout is in normal form, for disclosed fields.
proof fn lemma_variant_layout_refl(
    v: VariantDef,
    tag: u64,
    tw: usize,
    min_align: usize,
    cap: Visibility,
)
    requires
        crate::descriptor::fields_wf(v.fields@),
        fields_disclosed(v.fields@),
        tw >= 1,
        cap == Visibility::Public,
    ensures
        variant_layout(v, tag, tw, min_align, cap) matches Some(vl) ==> alts_refl(vl.alts),
    decreases v, 1nat,
{
    let tag_slot = SlotV::Discriminant { vis: cap, pattern: tag_bytes(tag as nat, tw as nat) };
    crate::descriptor::lemma_tag_bytes_len(tag as nat, tw as nat);
    let run = seq![tag_slot];
    lemma_run_single_refl(tag_slot);
    let st = crate::descriptor::Partial {
        offset: tw as nat,
        align: crate::descriptor::nat_max(min_align as nat, tw as nat),
        alts: seq![run],
    };
    lemma_alts_single_refl(run);
    lemma_struct_fold_refl(v.fields@, cap, None, st);
    match struct_fold(v.fields@, cap, None, st) {
        None => {},
        Some(end) => {
            let size = round_up(end.offset, end.align);
            if size <= usize::MAX {
                let pad = pad_slots(cap, (size - end.offset) as nat);
                lemma_pad_refl((size - end.offset) as nat);
                lemma_append_refl(end.alts, pad);
            }
        },
    }
}

/// Every variant's layout is in normal form, for disclosed variants.
proof fn lemma_variants_members_refl(
    variants: Seq<VariantDef>,
    next: u64,
    tw: usize,
    min_align: usize,
    cap: Visibility,
)
    requires
        crate::descriptor::variants_wf(variants),
        variants_disclosed(variants),
        tw >= 1,
        cap == Visibility::Public,
    ensures
        variants_members(variants, next, tw, min_align, cap) matches Some(ms) ==> members_all_refl(
            ms,
        ),
    decreases variants, 2nat,
{
    if variants.len() > 0 {
        let tag = match variants[0].tag {
            Some(t) => t,
            None => next,
        };
        let after = if tag == u64::MAX {
            0u64
        } else {
            (tag + 1) as u64
        };
        lemma_variant_layout_refl(variants[0], tag, tw, min_align, cap);
        lemma_variants_members_refl(variants.drop_first(), after, tw, min_align, cap);
        match variant_layout(variants[0], tag, tw, min_align, cap) {
            None => {},
            Some(vl) => match variants_members(variants.drop_first(), after, tw, min_align, cap) {
                None => {},
                Some(rest) => {
                    let ms = seq![vl] + rest;
                    assert(ms[0] == vl);
                    assert(ms.drop_first() =~= rest);
                },
            },
        }
    }
}

/// The calculator's layout of a fully disclosed descriptor is in normal,
/// fully disclosed form.
pub proof fn lemma_layout_of_refl_form(d: Descriptor, cap: Visibility)
    requires
        well_formed(d),
        desc_disclosed(d),
        cap == Visibility::Public,
    ensures
        layout_of(d, cap) matches Some(l) ==> layout_refl(l),
    decreases d, 3nat,
{
    match d.shape {
        Shape::Primitive { width, align, kind } => {
            let run = crate::descriptor::prim_run(kind, cap, width as nat);
            assert(run_refl(run)) by {
                if width > 0 {
                    lemma_run_single_refl(run[0]);
                    assert(run =~= seq![run[0]]);
                }
            }
            lemma_alts_single_refl(run);
        },
        Shape::Struct { fields } => {
            let st = crate::descriptor::Partial {
                offset: 0,
                align: d.min_align as nat,
                alts: seq![Seq::empty()],
            };
            lemma_alts_single_refl(Seq::empty());
            lemma_struct_fold_refl(fields@, cap, d.pack, st);
            match struct_fold(fields@, cap, d.pack, st) {
                None => {},
                Some(end) => {
                    let size = round_up(end.offset, end.align);
                    if size <= usize::MAX {
                        let pad = pad_slots(cap, (size - end.offset) as nat);
                        lemma_pad_refl((size - end.offset) as nat);
                        lemma_append_refl(end.alts, pad);
                    }
                },
            }
        },
        Shape::Union { fields } => {
            lemma_union_members_refl(fields@, cap);
            match union_members(fields@, cap) {
                None => {},
                Some(ms) => {
                    let align = crate::descriptor::nat_max(
                        d.min_align as nat,
                        crate::descriptor::members_max_align(ms, d.pack),
                    );
                    let size = round_up(crate::descriptor::members_max_size(ms), align);
                    if size <= usize::MAX {
                        lemma_members_padded_refl(ms, size, cap);
                    }
                },
            }
        },
        Shape::Variants { tag_width, variants } => {
            lemma_variants_members_refl(variants@, 0, tag_width, d.min_align, cap);
            match variants_members(variants@, 0, tag_width, d.min_align, cap) {
                None => {},
                Some(ms) => {
                    let align = crate::descriptor::members_max_align(ms, None);
                    let size = round_up(crate::descriptor::members_max_size(ms), align);
                    if size <= usize::MAX {
                        lemma_members_padded_refl(ms, size, cap);
                    }
                },
            }
        },
        Shape::Reference { mutability, scope, pointee } => {
            lemma_layout_of_refl_form(*pointee, Visibility::Public);
            match layout_of(*pointee, Visibility::Public) {
                None => {},
                Some(pl) => {
                    let slot = SlotV::Reference {
                        vis: cap,
                        mutability,
                        nonnull: true,
                        scope: scope as nat,
                        pointee: pl,
                    };
                    let run = seq![slot];
                    lemma_run_single_refl(slot);
                    lemma_alts_single_refl(run);
                },
            }
        },
        Shape::RawPointer { pointee } => {
            lemma_layout_of_refl_form(*pointee, Visibility::Public);
            match layout_of(*pointee, Visibility::Public) {
                None => {},
                Some(pl) => {
                    let slot = SlotV::Reference {
                        vis: cap,
                        mutability: crate::slot::Mutability::Shared,
                        nonnull: false,
                        scope: 0,
                        pointee: pl,
                    };
                    let run = seq![slot];
                    lemma_run_single_refl(slot);
                    lemma_alts_single_refl(run);
                },
            }
        },
        Shape::Array(a) => {
            lemma_layout_of_refl_form(*a.element, cap);
            match layout_of(*a.element, cap) {
                None => {},
                Some(el) => {
                    if el.size * a.count as nat <= usize::MAX {
                        lemma_rep_refl(el.alts, a.count as nat);
                    }
                },
            }
        },
    }
}

/// Reflexivity for every computed layout: the layout of a well-formed, fully
/// disclosed descriptor is compatible with itself under the strictest policy.
pub proof fn lemma_descriptor_reflexive(d: Descriptor)
    requires
        well_formed(d),
        desc_disclosed(d),
    ensures
        layout_of(d, Visibility::Public) matches Some(l) ==> layouts_check(
            l,
            l,
            Policy::strict_spec(),
        ) is Ok,
{
    crate::descriptor::lemma_layout_of_valid(d, Visibility::Public);
    lemma_layout_of_refl_form(d, Visibility::Public);
    match layout_of(d, Visibility::Public) {
        None => {},
        Some(l) => {
            lemma_layout_reflexive(l, Policy::strict_spec());
        },
    }
}

} // verus!
