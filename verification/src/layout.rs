//! Computed layouts: size, alignment and byte-level slot sequences.
//!
//! A [`Layout`] is the concrete in-memory representation of a type. Most
//! types have exactly one slot sequence; a union or tagged union contributes
//! one alternative sequence per member, and the compatibility checker matches
//! alternatives existentially.

use crate::slot::{
    seq_wid, slots_height, slots_valid, slots_view, Discriminant, Reference, Slot, SlotV,
    Visibility,
};
use vstd::prelude::*;

verus! {

/// The concrete in-memory representation of a type.
#[derive(Debug)]
pub struct Layout {
    /// The alignment, in bytes; at least 1.
    pub align: usize,
    /// The size, in bytes; a multiple of `align`, and the summed slot width
    /// of every alternative.
    pub size: usize,
    /// Whether this layout is attested as a guaranteed external contract (the
    /// stability marker a policy may demand of both sides of a query).
    pub attested: bool,
    /// The alternative slot sequences; at least one. A layout without unions
    /// has exactly one.
    pub alts: Vec<Vec<Slot>>,
}

/// The mathematical value of a [`Layout`].
pub ghost struct LayoutV {
    pub align: nat,
    pub size: nat,
    pub attested: bool,
    pub alts: Seq<Seq<SlotV>>,
}

pub open spec fn alts_view(a: Seq<Vec<Slot>>) -> Seq<Seq<SlotV>>
    decreases a,
{
    if a.len() == 0 {
        Seq::empty()
    } else {
        seq![slots_view(a[0]@)] + alts_view(a.drop_first())
    }
}

pub open spec fn layout_view(l: Layout) -> LayoutV
    decreases l,
{
    LayoutV {
        align: l.align as nat,
        size: l.size as nat,
        attested: l.attested,
        alts: alts_view(l.alts@),
    }
}

impl View for Layout {
    type V = LayoutV;

    open spec fn view(&self) -> LayoutV {
        layout_view(*self)
    }
}

/// The summed nesting height of all alternatives.
pub open spec fn alts_height(a: Seq<Seq<SlotV>>) -> nat
    decreases a,
{
    if a.len() == 0 {
        0
    } else {
        slots_height(a[0]) + alts_height(a.drop_first())
    }
}

/// The nesting height of a layout: how deep reference pointees are stacked
/// under it.
pub open spec fn layout_height(l: LayoutV) -> nat
    decreases l,
{
    1 + alts_height(l.alts)
}

/// Whether every alternative sums to `size` and holds consistent slots.
pub open spec fn alts_valid(a: Seq<Seq<SlotV>>, size: nat) -> bool
    decreases a,
{
    if a.len() == 0 {
        true
    } else {
        seq_wid(a[0]) == size && slots_valid(a[0]) && alts_valid(a.drop_first(), size)
    }
}

/// The layout invariant: the alignment is at least 1, the size is a multiple
/// of the alignment, at least one alternative exists, and every alternative's
/// slot widths sum to the size.
pub open spec fn layout_valid(l: LayoutV) -> bool
    decreases l,
{
    &&& l.align >= 1
    &&& l.size % l.align == 0
    &&& l.alts.len() >= 1
    &&& alts_valid(l.alts, l.size)
}

/// `alts_view` maps `slots_view` over the alternatives, index by index.
pub proof fn lemma_alts_view_index(a: Seq<Vec<Slot>>)
    ensures
        alts_view(a).len() == a.len(),
        forall|i: int| 0 <= i < a.len() ==> alts_view(a)[i] == slots_view(a[i]@),
    decreases a,
{
    if a.len() > 0 {
        lemma_alts_view_index(a.drop_first());
    }
}

/// Height and validity of the alternatives, read at one index.
pub proof fn lemma_alts_split(a: Seq<Seq<SlotV>>, size: nat, i: int)
    requires
        0 <= i < a.len(),
    ensures
        alts_height(a) >= slots_height(a[i]),
        alts_valid(a, size) ==> seq_wid(a[i]) == size && slots_valid(a[i]),
    decreases a,
{
    if i > 0 {
        lemma_alts_split(a.drop_first(), size, i - 1);
        assert(a.drop_first()[i - 1] == a[i]);
    }
}

/// One slot of the candidate view: the same bytes, every one of them public.
pub open spec fn disclose_slot(s: SlotV) -> SlotV
    decreases s,
{
    match s {
        SlotV::Bytes { kind, width, .. } => SlotV::Bytes {
            kind,
            vis: Visibility::Public,
            width,
        },
        SlotV::Discriminant { pattern, .. } => SlotV::Discriminant {
            vis: Visibility::Public,
            pattern,
        },
        SlotV::Reference { mutability, nonnull, scope, pointee, .. } => SlotV::Reference {
            vis: Visibility::Public,
            mutability,
            nonnull,
            scope,
            pointee: disclose_layout(pointee),
        },
    }
}

pub open spec fn disclose_run(s: Seq<SlotV>) -> Seq<SlotV>
    decreases s,
{
    if s.len() == 0 {
        Seq::empty()
    } else {
        seq![disclose_slot(s[0])] + disclose_run(s.drop_first())
    }
}

pub open spec fn disclose_alts(a: Seq<Seq<SlotV>>) -> Seq<Seq<SlotV>>
    decreases a,
{
    if a.len() == 0 {
        Seq::empty()
    } else {
        seq![disclose_run(a[0])] + disclose_alts(a.drop_first())
    }
}

/// The candidate view of a layout: the structural twin whose every byte is
/// public.
pub open spec fn disclose_layout(l: LayoutV) -> LayoutV
    decreases l,
{
    LayoutV { align: l.align, size: l.size, attested: l.attested, alts: disclose_alts(l.alts) }
}

/// `disclose_run` and `disclose_alts`, read at one index.
pub proof fn lemma_disclose_index(a: Seq<Seq<SlotV>>)
    ensures
        disclose_alts(a).len() == a.len(),
        forall|i: int| 0 <= i < a.len() ==> disclose_alts(a)[i] == disclose_run(a[i]),
    decreases a,
{
    if a.len() > 0 {
        lemma_disclose_index(a.drop_first());
    }
}

/// `disclose_run`, read at one index.
pub proof fn lemma_disclose_run_index(s: Seq<SlotV>)
    ensures
        disclose_run(s).len() == s.len(),
        forall|i: int| 0 <= i < s.len() ==> disclose_run(s)[i] == disclose_slot(s[i]),
    decreases s,
{
    if s.len() > 0 {
        lemma_disclose_run_index(s.drop_first());
    }
}

/// The candidate view: a structural twin that exposes every field's bytes,
/// bypassing constructors and invariant checks. It serves only to evaluate an
/// externally supplied invariant predicate; it is never itself the subject of
/// a conversion.
pub trait Candidate {
    /// Whether `r` is the candidate view of this value.
    spec fn is_candidate(&self, r: &Self) -> bool;

    fn candidate(&self) -> (r: Self) where Self: Sized
        ensures
            self.is_candidate(&r),
    ;
}

impl Candidate for Layout {
    open spec fn is_candidate(&self, r: &Layout) -> bool {
        (*r)@ == disclose_layout((*self)@)
    }

    fn candidate(&self) -> (r: Layout)
        ensures
            self.is_candidate(&r),
    {
        Layout {
            align: self.align,
            size: self.size,
            attested: self.attested,
            alts: disclose_alts_exec(&self.alts),
        }
    }
}

/// One disclosed slot.
fn disclose_slot_exec(s: &Slot) -> (r: Slot)
    ensures
        r@ == disclose_slot(s@),
    decreases s,
{
    match s {
        Slot::Bytes { kind, width, .. } => Slot::Bytes {
            kind: *kind,
            vis: Visibility::Public,
            width: *width,
        },
        Slot::Discriminant(d) => {
            let mut pattern: Vec<u8> = Vec::new();
            let mut k: usize = 0;
            while k < d.pattern.len()
                invariant
                    k <= d.pattern@.len(),
                    pattern@ == d.pattern@.take(k as int),
                decreases d.pattern@.len() - k,
            {
                pattern.push(d.pattern[k]);
                proof {
                    assert(d.pattern@.take(k as int + 1) =~= d.pattern@.take(k as int) + seq![
                        d.pattern@[k as int],
                    ]);
                }
                k = k + 1;
            }
            proof {
                assert(d.pattern@.take(d.pattern@.len() as int) =~= d.pattern@);
            }
            Slot::Discriminant(Discriminant { vis: Visibility::Public, pattern })
        },
        Slot::Reference(r) => Slot::Reference(
            Reference {
                vis: Visibility::Public,
                mutability: r.mutability,
                nonnull: r.nonnull,
                scope: r.scope,
                pointee: Layout {
                    align: r.pointee.align,
                    size: r.pointee.size,
                    attested: r.pointee.attested,
                    alts: disclose_alts_exec(&r.pointee.alts),
                },
            },
        ),
    }
}

/// One disclosed run.
fn disclose_run_exec(v: &Vec<Slot>) -> (r: Vec<Slot>)
    ensures
        slots_view(r@) == disclose_run(slots_view(v@)),
    decreases v,
{
    let mut out: Vec<Slot> = Vec::new();
    let mut k: usize = 0;
    while k < v.len()
        invariant
            k <= v@.len(),
            out@.len() == k,
            forall|i: int|
                0 <= i < k ==> crate::slot::slot_view(out@[i]) == disclose_slot(
                    crate::slot::slot_view(v@[i]),
                ),
        decreases v@.len() - k,
    {
        let s = disclose_slot_exec(&v[k]);
        out.push(s);
        k = k + 1;
    }
    proof {
        crate::slot::lemma_slots_view_index(out@);
        crate::slot::lemma_slots_view_index(v@);
        lemma_disclose_run_index(slots_view(v@));
        assert(slots_view(out@) =~= disclose_run(slots_view(v@)));
    }
    out
}

/// All alternatives, disclosed.
fn disclose_alts_exec(v: &Vec<Vec<Slot>>) -> (r: Vec<Vec<Slot>>)
    ensures
        alts_view(r@) == disclose_alts(alts_view(v@)),
    decreases v,
{
    let mut out: Vec<Vec<Slot>> = Vec::new();
    let mut k: usize = 0;
    while k < v.len()
        invariant
            k <= v@.len(),
            out@.len() == k,
            forall|i: int|
                0 <= i < k ==> slots_view(out@[i]@) == disclose_run(slots_view(v@[i]@)),
        decreases v@.len() - k,
    {
        let s = disclose_run_exec(&v[k]);
        out.push(s);
        k = k + 1;
    }
    proof {
        lemma_alts_view_index(out@);
        lemma_alts_view_index(v@);
        lemma_disclose_index(alts_view(v@));
        assert(alts_view(out@) =~= disclose_alts(alts_view(v@)));
    }
    out
}

} // verus!
