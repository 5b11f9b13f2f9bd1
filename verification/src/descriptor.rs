//! Type descriptors and the layout calculator.
//!
//! A [`Descriptor`] is a name-independent description of a type's shape. The
//! layout calculator turns it into a concrete [`Layout`]: it walks fields in
//! declaration order, inserts padding up to each field's effective alignment
//! (its own alignment capped by the packing bound), rounds the final size up
//! to the running alignment, lays tagged-union variants out behind a shared
//! discriminant, and flattens arrays into repeated element slots.

use crate::layout::{
    alts_valid, alts_view, layout_valid, layout_view, lemma_alts_view_index, Layout, LayoutV,
};
use crate::num::{add_sz, lemma_round_up, max_sz, min_sz, mul_sz, round_up, round_up_sz};
use crate::slot::{
    lemma_slots_view_index, seq_wid, slot_valid, slot_view, slot_wid, slots_valid, slots_view,
    vis_min, Discriminant, Kind, KindChoice, Mutability, MutabilityChoice, Reference, Slot, SlotV,
    Visibility, VisibilityChoice, POINTER_WIDTH,
};
use vstd::prelude::*;

verus! {

/// One field of an aggregate: a shape and the visibility under which its
/// bytes are reached.
#[derive(Debug)]
pub struct Field {
    pub vis: Visibility,
    pub desc: Descriptor,
}

/// One variant of a tagged union: an optional explicit tag (as the bit
/// pattern of the discriminant, least significant byte first) and the
/// variant's fields. The first unspecified tag is 0 and every later
/// unspecified tag is the previous tag plus one.
#[derive(Debug)]
pub struct VariantDef {
    pub tag: Option<u64>,
    pub fields: Vec<Field>,
}

/// An array shape: `count` elements laid out back to back.
#[derive(Debug)]
pub struct Array {
    pub element: Box<Descriptor>,
    pub count: usize,
}

/// The structural shape of a type.
#[derive(Debug)]
pub enum Shape {
    /// An indivisible run of `width` bytes of one validity class, aligned to
    /// `align`.
    Primitive { width: usize, align: usize, kind: Kind },
    /// Fields in declaration order, padded to their effective alignments.
    Struct { fields: Vec<Field> },
    /// An untagged union: every member is laid out at offset zero, and any
    /// one of them may be the value's reading.
    Union { fields: Vec<Field> },
    /// A tagged union: each variant is a struct of the shared discriminant
    /// followed by its fields; the result is as large as the largest variant.
    Variants { tag_width: usize, variants: Vec<VariantDef> },
    /// A non-null, lifetime-scoped pointer to a pointee type.
    Reference { mutability: Mutability, scope: u64, pointee: Box<Descriptor> },
    /// A possibly-null pointer to a pointee type, with no lifetime.
    RawPointer { pointee: Box<Descriptor> },
    /// `count` repetitions of an element type.
    Array(Array),
}

/// A type descriptor: a shape together with the two layout knobs a user may
/// set on a type definition (a requested minimum alignment and a maximum
/// packing bound) and the stability attestation.
#[derive(Debug)]
pub struct Descriptor {
    pub shape: Shape,
    /// The requested minimum alignment; 1 where not raised. Only an
    /// aggregate definition (struct, union, tagged union) may raise it.
    pub min_align: usize,
    /// The maximum packing bound: every field's effective alignment is capped
    /// at this; `None` is no constraint. Only a struct or union may set it.
    pub pack: Option<usize>,
    /// Whether this type's layout is attested as a guaranteed external
    /// contract.
    pub attested: bool,
}

/// Whether the two layout knobs stand at their defaults (for shapes that are
/// not aggregate definitions).
pub open spec fn default_knobs(d: Descriptor) -> bool {
    d.min_align == 1 && d.pack is None
}

/// Whether a sequence of fields is well-formed.
pub open spec fn fields_wf(fields: Seq<Field>) -> bool
    decreases fields,
{
    if fields.len() == 0 {
        true
    } else {
        well_formed(fields[0].desc) && fields_wf(fields.drop_first())
    }
}

/// Whether a sequence of variants is well-formed.
pub open spec fn variants_wf(variants: Seq<VariantDef>) -> bool
    decreases variants,
{
    if variants.len() == 0 {
        true
    } else {
        fields_wf(variants[0].fields@) && variants_wf(variants.drop_first())
    }
}

/// Structural validity of a descriptor: alignments are at least 1, a
/// primitive's width is a multiple of its alignment, the layout knobs stand
/// only on aggregate definitions, a union or tagged union has at least one
/// member, and the discriminant width is that of an integer type.
pub open spec fn well_formed(d: Descriptor) -> bool
    decreases d,
{
    match d.shape {
        Shape::Primitive { width, align, .. } => default_knobs(d) && align >= 1 && width as nat
            % align as nat == 0,
        Shape::Struct { fields } => d.min_align >= 1 && (d.pack matches Some(p) ==> p >= 1)
            && fields_wf(fields@),
        Shape::Union { fields } => d.min_align >= 1 && (d.pack matches Some(p) ==> p >= 1)
            && fields@.len() >= 1 && fields_wf(fields@),
        Shape::Variants { tag_width, variants } => d.min_align >= 1 && d.pack is None && (tag_width
            == 1 || tag_width == 2 || tag_width == 4 || tag_width == 8) && variants@.len() >= 1
            && variants_wf(variants@),
        Shape::Reference { pointee, .. } => default_knobs(d) && well_formed(*pointee),
        Shape::RawPointer { pointee } => default_knobs(d) && well_formed(*pointee),
        Shape::Array(a) => default_knobs(d) && well_formed(*a.element),
    }
}

/// The little-endian bytes of tag value `t`, truncated to `w` bytes.
pub open spec fn tag_bytes(t: nat, w: nat) -> Seq<u8>
    decreases w,
{
    if w == 0 {
        Seq::empty()
    } else {
        seq![(t % 256) as u8] + tag_bytes(t / 256, (w - 1) as nat)
    }
}

/// A padding run of `w` uninitialized bytes; no slot at all for `w == 0`.
pub open spec fn pad_slots(vis: Visibility, w: nat) -> Seq<SlotV> {
    if w == 0 {
        Seq::empty()
    } else {
        seq![SlotV::Bytes { kind: Kind::Uninitialized, vis, width: w }]
    }
}

/// Every alternative extended by the same tail.
pub open spec fn append_to_all(alts: Seq<Seq<SlotV>>, tail: Seq<SlotV>) -> Seq<Seq<SlotV>> {
    Seq::new(alts.len(), |i: int| alts[i] + tail)
}

/// One alternative prefix extended by every alternative of `b`.
pub open spec fn prefix_all(x: Seq<SlotV>, b: Seq<Seq<SlotV>>) -> Seq<Seq<SlotV>> {
    Seq::new(b.len(), |j: int| x + b[j])
}

/// The cross product of two alternative sets: a value of the combined region
/// may pair any reading of the first part with any reading of the second.
pub open spec fn cross(a: Seq<Seq<SlotV>>, b: Seq<Seq<SlotV>>) -> Seq<Seq<SlotV>>
    decreases a,
{
    if a.len() == 0 {
        Seq::empty()
    } else {
        prefix_all(a[0], b) + cross(a.drop_first(), b)
    }
}

/// A field's effective alignment: its own, capped by the packing bound.
pub open spec fn eff_align(field_align: nat, pack: Option<usize>) -> nat {
    match pack {
        None => field_align,
        Some(p) => if field_align <= p as nat {
            field_align
        } else {
            p as nat
        },
    }
}

/// The larger of two alignments.
pub open spec fn nat_max(a: nat, b: nat) -> nat {
    if a >= b {
        a
    } else {
        b
    }
}

/// The state the struct calculator carries across fields: the offset after
/// the bytes laid so far, the running alignment, and the alternatives built
/// so far.
pub ghost struct Partial {
    pub offset: nat,
    pub align: nat,
    pub alts: Seq<Seq<SlotV>>,
}

/// Lay out `fields` in order, starting from `st`: pad each field up to its
/// effective alignment, append its slots, advance the offset and raise the
/// running alignment. `None` where a computed offset would not fit a machine
/// word.
pub open spec fn struct_fold(
    fields: Seq<Field>,
    cap: Visibility,
    pack: Option<usize>,
    st: Partial,
) -> Option<Partial>
    decreases fields, 0nat,
{
    if fields.len() == 0 {
        Some(st)
    } else {
        let f = fields[0];
        match layout_of(f.desc, vis_min(f.vis, cap)) {
            None => None,
            Some(fl) => {
                let ea = eff_align(fl.align, pack);
                let padded = round_up(st.offset, ea);
                if padded > usize::MAX || padded + fl.size > usize::MAX {
                    None
                } else {
                    struct_fold(
                        fields.drop_first(),
                        cap,
                        pack,
                        Partial {
                            offset: (padded + fl.size) as nat,
                            align: nat_max(st.align, ea),
                            alts: cross(
                                append_to_all(
                                    st.alts,
                                    pad_slots(cap, (padded - st.offset) as nat),
                                ),
                                fl.alts,
                            ),
                        },
                    )
                }
            },
        }
    }
}

/// The layouts of a union's members, each at offset zero under the union's
/// visibility cap.
pub open spec fn union_members(fields: Seq<Field>, cap: Visibility) -> Option<Seq<LayoutV>>
    decreases fields, 0nat,
{
    if fields.len() == 0 {
        Some(Seq::empty())
    } else {
        match layout_of(fields[0].desc, vis_min(fields[0].vis, cap)) {
            None => None,
            Some(fl) => match union_members(fields.drop_first(), cap) {
                None => None,
                Some(rest) => Some(seq![fl] + rest),
            },
        }
    }
}

/// The layout of one variant of a tagged union: a struct of the discriminant
/// (width and alignment `tw`, carrying the tag's bytes) followed by the
/// variant's fields.
pub open spec fn variant_layout(
    v: VariantDef,
    tag: u64,
    tw: usize,
    min_align: usize,
    cap: Visibility,
) -> Option<LayoutV>
    decreases v, 1nat,
{
    let tag_slot = SlotV::Discriminant { vis: cap, pattern: tag_bytes(tag as nat, tw as nat) };
    let st = Partial {
        offset: tw as nat,
        align: nat_max(min_align as nat, tw as nat),
        alts: seq![seq![tag_slot]],
    };
    match struct_fold(v.fields@, cap, None, st) {
        None => None,
        Some(end) => {
            let size = round_up(end.offset, end.align);
            if size > usize::MAX {
                None
            } else {
                Some(
                    LayoutV {
                        align: end.align,
                        size,
                        attested: false,
                        alts: append_to_all(
                            end.alts,
                            pad_slots(cap, (size - end.offset) as nat),
                        ),
                    },
                )
            }
        },
    }
}

/// The layouts of a tagged union's variants, with the tag-defaulting rule:
/// `next` is the tag the next unspecified variant gets, and each variant
/// after it counts on from the tag actually used.
pub open spec fn variants_members(
    variants: Seq<VariantDef>,
    next: u64,
    tw: usize,
    min_align: usize,
    cap: Visibility,
) -> Option<Seq<LayoutV>>
    decreases variants, 2nat,
{
    if variants.len() == 0 {
        Some(Seq::empty())
    } else {
        let tag = match variants[0].tag {
            Some(t) => t,
            None => next,
        };
        let after = if tag == u64::MAX {
            0u64
        } else {
            (tag + 1) as u64
        };
        match variant_layout(variants[0], tag, tw, min_align, cap) {
            None => None,
            Some(vl) => match variants_members(variants.drop_first(), after, tw, min_align, cap) {
                None => None,
                Some(rest) => Some(seq![vl] + rest),
            },
        }
    }
}

/// The largest effective alignment among member layouts.
pub open spec fn members_max_align(ms: Seq<LayoutV>, pack: Option<usize>) -> nat
    decreases ms,
{
    if ms.len() == 0 {
        0
    } else {
        nat_max(eff_align(ms[0].align, pack), members_max_align(ms.drop_first(), pack))
    }
}

/// The largest size among member layouts.
pub open spec fn members_max_size(ms: Seq<LayoutV>) -> nat
    decreases ms,
{
    if ms.len() == 0 {
        0
    } else {
        nat_max(ms[0].size, members_max_size(ms.drop_first()))
    }
}

/// All members' alternatives, each padded up to the common size.
pub open spec fn members_padded_alts(ms: Seq<LayoutV>, size: nat, cap: Visibility) -> Seq<
    Seq<SlotV>,
>
    decreases ms,
{
    if ms.len() == 0 {
        Seq::empty()
    } else {
        append_to_all(ms[0].alts, pad_slots(cap, (size - ms[0].size) as nat)) + members_padded_alts(
            ms.drop_first(),
            size,
            cap,
        )
    }
}

/// The repetitions of an element's alternatives, `n` times back to back.
pub open spec fn rep_alts(a: Seq<Seq<SlotV>>, n: nat) -> Seq<Seq<SlotV>>
    decreases n,
{
    if n == 0 {
        seq![Seq::empty()]
    } else {
        cross(a, rep_alts(a, (n - 1) as nat))
    }
}

/// The concrete layout of a descriptor, with every byte reached through a
/// field less visible than `cap` capped at that visibility; `None` where a
/// size or offset would not fit a machine word.
pub open spec fn layout_of(d: Descriptor, cap: Visibility) -> Option<LayoutV>
    decreases d, 3nat,
{
    match d.shape {
        Shape::Primitive { width, align, kind } => Some(
            LayoutV {
                align: align as nat,
                size: width as nat,
                attested: d.attested,
                alts: seq![prim_run(kind, cap, width as nat)],
            },
        ),
        Shape::Struct { fields } => {
            let st = Partial {
                offset: 0,
                align: d.min_align as nat,
                alts: seq![Seq::empty()],
            };
            match struct_fold(fields@, cap, d.pack, st) {
                None => None,
                Some(end) => {
                    let size = round_up(end.offset, end.align);
                    if size > usize::MAX {
                        None
                    } else {
                        Some(
                            LayoutV {
                                align: end.align,
                                size,
                                attested: d.attested,
                                alts: append_to_all(
                                    end.alts,
                                    pad_slots(cap, (size - end.offset) as nat),
                                ),
                            },
                        )
                    }
                },
            }
        },
        Shape::Union { fields } => match union_members(fields@, cap) {
            None => None,
            Some(ms) => {
                let align = nat_max(d.min_align as nat, members_max_align(ms, d.pack));
                let size = round_up(members_max_size(ms), align);
                if size > usize::MAX {
                    None
                } else {
                    Some(
                        LayoutV {
                            align,
                            size,
                            attested: d.attested,
                            alts: members_padded_alts(ms, size, cap),
                        },
                    )
                }
            },
        },
        Shape::Variants { tag_width, variants } => {
            match variants_members(variants@, 0, tag_width, d.min_align, cap) {
                None => None,
                Some(ms) => {
                    let align = members_max_align(ms, None);
                    let size = round_up(members_max_size(ms), align);
                    if size > usize::MAX {
                        None
                    } else {
                        Some(
                            LayoutV {
                                align,
                                size,
                                attested: d.attested,
                                alts: members_padded_alts(ms, size, cap),
                            },
                        )
                    }
                },
            }
        },
        Shape::Reference { mutability, scope, pointee } => {
            match layout_of(*pointee, Visibility::Public) {
                None => None,
                Some(pl) => Some(
                    LayoutV {
                        align: POINTER_WIDTH as nat,
                        size: POINTER_WIDTH as nat,
                        attested: d.attested,
                        alts: seq![
                            seq![
                                SlotV::Reference {
                                    vis: cap,
                                    mutability,
                                    nonnull: true,
                                    scope: scope as nat,
                                    pointee: pl,
                                },
                            ],
                        ],
                    },
                ),
            }
        },
        Shape::RawPointer { pointee } => match layout_of(*pointee, Visibility::Public) {
            None => None,
            Some(pl) => Some(
                LayoutV {
                    align: POINTER_WIDTH as nat,
                    size: POINTER_WIDTH as nat,
                    attested: d.attested,
                    alts: seq![
                        seq![
                            SlotV::Reference {
                                vis: cap,
                                mutability: Mutability::Shared,
                                nonnull: false,
                                scope: 0,
                                pointee: pl,
                            },
                        ],
                    ],
                },
            ),
        },
        Shape::Array(a) => match layout_of(*a.element, cap) {
            None => None,
            Some(el) => if el.size * a.count as nat > usize::MAX {
                None
            } else {
                Some(
                    LayoutV {
                        align: el.align,
                        size: el.size * a.count as nat,
                        attested: d.attested,
                        alts: rep_alts(el.alts, a.count as nat),
                    },
                )
            },
        },
    }
}

/// A primitive's slot run: one `Bytes` slot of its class, or nothing at all
/// for a zero-width primitive.
pub open spec fn prim_run(kind: Kind, vis: Visibility, w: nat) -> Seq<SlotV> {
    if w == 0 {
        Seq::empty()
    } else {
        seq![SlotV::Bytes { kind, vis, width: w }]
    }
}

/// Width and validity distribute over concatenation of slot runs.
pub proof fn lemma_wid_concat(a: Seq<SlotV>, b: Seq<SlotV>)
    ensures
        seq_wid(a + b) == seq_wid(a) + seq_wid(b),
        slots_valid(a + b) == (slots_valid(a) && slots_valid(b)),
    decreases a,
{
    if a.len() == 0 {
        assert(a + b =~= b);
    } else {
        assert((a + b).drop_first() =~= a.drop_first() + b);
        lemma_wid_concat(a.drop_first(), b);
    }
}

/// Alternative sets of one common width concatenate to one of that width.
pub proof fn lemma_alts_valid_concat(x: Seq<Seq<SlotV>>, y: Seq<Seq<SlotV>>, n: nat)
    requires
        alts_valid(x, n),
        alts_valid(y, n),
    ensures
        alts_valid(x + y, n),
    decreases x,
{
    if x.len() == 0 {
        assert(x + y =~= y);
    } else {
        assert((x + y).drop_first() =~= x.drop_first() + y);
        lemma_alts_valid_concat(x.drop_first(), y, n);
        assert((x + y)[0] == x[0]);
    }
}

/// Appending one tail to every alternative adds the tail's width to each.
pub proof fn lemma_append_to_all_valid(alts: Seq<Seq<SlotV>>, tail: Seq<SlotV>, n: nat)
    requires
        alts_valid(alts, n),
        slots_valid(tail),
    ensures
        alts_valid(append_to_all(alts, tail), (n + seq_wid(tail)) as nat),
        append_to_all(alts, tail).len() == alts.len(),
    decreases alts,
{
    let out = append_to_all(alts, tail);
    if alts.len() > 0 {
        assert(out[0] == alts[0] + tail);
        lemma_wid_concat(alts[0], tail);
        assert(out.drop_first() =~= append_to_all(alts.drop_first(), tail));
        lemma_append_to_all_valid(alts.drop_first(), tail, n);
    }
}

/// Prefixing one run to every alternative adds the run's width to each.
pub proof fn lemma_prefix_all_valid(x: Seq<SlotV>, b: Seq<Seq<SlotV>>, n: nat, m: nat)
    requires
        seq_wid(x) == n,
        slots_valid(x),
        alts_valid(b, m),
    ensures
        alts_valid(prefix_all(x, b), n + m),
        prefix_all(x, b).len() == b.len(),
    decreases b,
{
    let out = prefix_all(x, b);
    if b.len() > 0 {
        assert(out[0] == x + b[0]);
        lemma_wid_concat(x, b[0]);
        assert(out.drop_first() =~= prefix_all(x, b.drop_first()));
        lemma_prefix_all_valid(x, b.drop_first(), n, m);
    }
}

/// The cross product of valid alternative sets is valid at the summed width,
/// and is as large as the two sets' product.
pub proof fn lemma_cross_valid(a: Seq<Seq<SlotV>>, b: Seq<Seq<SlotV>>, n: nat, m: nat)
    requires
        alts_valid(a, n),
        alts_valid(b, m),
    ensures
        alts_valid(cross(a, b), n + m),
        cross(a, b).len() == a.len() * b.len(),
    decreases a,
{
    if a.len() == 0 {
        assert(a.len() * b.len() == 0) by (nonlinear_arith)
            requires
                a.len() == 0,
        ;
    } else {
        lemma_prefix_all_valid(a[0], b, n, m);
        lemma_cross_valid(a.drop_first(), b, n, m);
        lemma_alts_valid_concat(prefix_all(a[0], b), cross(a.drop_first(), b), n + m);
        assert(a.len() * b.len() == b.len() + a.drop_first().len() * b.len()) by (nonlinear_arith)
            requires
                a.len() >= 1,
                a.drop_first().len() == a.len() - 1,
        ;
    }
}

/// Repeating a valid alternative set `k` times yields one valid at `k` times
/// the width.
pub proof fn lemma_rep_alts_valid(a: Seq<Seq<SlotV>>, k: nat, m: nat)
    requires
        alts_valid(a, m),
        a.len() >= 1,
    ensures
        alts_valid(rep_alts(a, k), k * m),
        rep_alts(a, k).len() >= 1,
    decreases k,
{
    if k == 0 {
        assert(0 * m == 0) by (nonlinear_arith);
        let out = rep_alts(a, 0);
        assert(seq_wid(out[0]) == 0);
        assert(slots_valid(out[0]));
        assert(out.drop_first() =~= Seq::<Seq<SlotV>>::empty());
        assert(alts_valid(out.drop_first(), 0 * m));
        assert(alts_valid(out, 0 * m));
    } else {
        lemma_rep_alts_valid(a, (k - 1) as nat, m);
        lemma_cross_valid(a, rep_alts(a, (k - 1) as nat), m, ((k - 1) as nat) * m);
        assert(k * m == m + (k - 1) * m) by (nonlinear_arith)
            requires
                k >= 1,
        ;
        assert(rep_alts(a, k).len() >= 1) by (nonlinear_arith)
            requires
                rep_alts(a, k).len() == a.len() * rep_alts(a, (k - 1) as nat).len(),
                a.len() >= 1,
                rep_alts(a, (k - 1) as nat).len() >= 1,
        ;
    }
}

/// A tag pattern is as wide as the discriminant it encodes.
pub proof fn lemma_tag_bytes_len(t: nat, w: nat)
    ensures
        tag_bytes(t, w).len() == w,
    decreases w,
{
    if w > 0 {
        lemma_tag_bytes_len(t / 256, (w - 1) as nat);
    }
}

/// A single alternative of one run is a valid alternative set of the run's
/// width.
pub proof fn lemma_single_alt_valid(x: Seq<SlotV>)
    requires
        slots_valid(x),
    ensures
        alts_valid(seq![x], seq_wid(x)),
{
    let out = seq![x];
    assert(out.drop_first() =~= Seq::<Seq<SlotV>>::empty());
    assert(alts_valid(out.drop_first(), seq_wid(x)));
}

/// One slot alone: its run has its width and its validity.
pub proof fn lemma_wid_single(s: SlotV)
    ensures
        seq_wid(seq![s]) == slot_wid(s),
        slots_valid(seq![s]) == slot_valid(s),
{
    let run = seq![s];
    assert(run.drop_first() =~= Seq::<SlotV>::empty());
    assert(seq_wid(run.drop_first()) == 0);
    assert(slots_valid(run.drop_first()));
}

/// A padding run is valid and as wide as asked.
pub proof fn lemma_pad_slots(vis: Visibility, w: nat)
    ensures
        seq_wid(pad_slots(vis, w)) == w,
        slots_valid(pad_slots(vis, w)),
{
    if w > 0 {
        let p = pad_slots(vis, w);
        lemma_wid_single(p[0]);
        assert(p =~= seq![p[0]]);
    }
}

/// Whether every member layout of a union or tagged union is valid.
pub open spec fn members_all_valid(ms: Seq<LayoutV>) -> bool
    decreases ms,
{
    if ms.len() == 0 {
        true
    } else {
        layout_valid(ms[0]) && members_all_valid(ms.drop_first())
    }
}

/// The common size bounds every member, and padding every member's
/// alternatives up to it yields a valid alternative set.
pub proof fn lemma_members_padded_alts_valid(ms: Seq<LayoutV>, size: nat, cap: Visibility)
    requires
        members_all_valid(ms),
        members_max_size(ms) <= size,
    ensures
        alts_valid(members_padded_alts(ms, size, cap), size),
        ms.len() >= 1 ==> members_padded_alts(ms, size, cap).len() >= 1,
    decreases ms,
{
    if ms.len() > 0 {
        let m = ms[0];
        lemma_pad_slots(cap, (size - m.size) as nat);
        lemma_append_to_all_valid(m.alts, pad_slots(cap, (size - m.size) as nat), m.size);
        lemma_members_padded_alts_valid(ms.drop_first(), size, cap);
        lemma_alts_valid_concat(
            append_to_all(m.alts, pad_slots(cap, (size - m.size) as nat)),
            members_padded_alts(ms.drop_first(), size, cap),
            size,
        );
    }
}

/// A valid fold state stays valid across the struct calculator, and the
/// running alignment never falls.
pub proof fn lemma_struct_fold_valid(
    fields: Seq<Field>,
    cap: Visibility,
    pack: Option<usize>,
    st: Partial,
)
    requires
        fields_wf(fields),
        pack matches Some(p) ==> p >= 1,
        alts_valid(st.alts, st.offset),
        st.alts.len() >= 1,
        st.align >= 1,
    ensures
        struct_fold(fields, cap, pack, st) matches Some(end) ==> alts_valid(end.alts, end.offset)
            && end.alts.len() >= 1 && end.align >= st.align,
    decreases fields, 0nat,
{
    if fields.len() > 0 {
        let f = fields[0];
        lemma_layout_of_valid(f.desc, vis_min(f.vis, cap));
        match layout_of(f.desc, vis_min(f.vis, cap)) {
            None => {},
            Some(fl) => {
                let ea = eff_align(fl.align, pack);
                let padded = round_up(st.offset, ea);
                if !(padded > usize::MAX || padded + fl.size > usize::MAX) {
                    lemma_round_up(st.offset, ea);
                    let pad = pad_slots(cap, (padded - st.offset) as nat);
                    lemma_pad_slots(cap, (padded - st.offset) as nat);
                    lemma_append_to_all_valid(st.alts, pad, st.offset);
                    lemma_cross_valid(append_to_all(st.alts, pad), fl.alts, padded, fl.size);
                    let next = Partial {
                        offset: (padded + fl.size) as nat,
                        align: nat_max(st.align, ea),
                        alts: cross(append_to_all(st.alts, pad), fl.alts),
                    };
                    assert(next.alts.len() >= 1) by (nonlinear_arith)
                        requires
                            next.alts.len() == append_to_all(st.alts, pad).len() * fl.alts.len(),
                            append_to_all(st.alts, pad).len() >= 1,
                            fl.alts.len() >= 1,
                    ;
                    lemma_struct_fold_valid(fields.drop_first(), cap, pack, next);
                }
            },
        }
    }
}

/// Every member layout a union's calculator produces is valid, and there are
/// as many as the union has members.
pub proof fn lemma_union_members_valid(fields: Seq<Field>, cap: Visibility)
    requires
        fields_wf(fields),
    ensures
        union_members(fields, cap) matches Some(ms) ==> members_all_valid(ms) && ms.len()
            == fields.len(),
    decreases fields, 0nat,
{
    if fields.len() > 0 {
        lemma_layout_of_valid(fields[0].desc, vis_min(fields[0].vis, cap));
        lemma_union_members_valid(fields.drop_first(), cap);
        match layout_of(fields[0].desc, vis_min(fields[0].vis, cap)) {
            None => {},
            Some(fl) => match union_members(fields.drop_first(), cap) {
                None => {},
                Some(rest) => {
                    let ms = seq![fl] + rest;
                    assert(ms[0] == fl);
                    assert(ms.drop_first() =~= rest);
                },
            },
        }
    }
}

/// One variant's layout is valid, and its alignment is at least the larger of
/// the requested minimum and the discriminant width.
pub proof fn lemma_variant_layout_valid(
    v: VariantDef,
    tag: u64,
    tw: usize,
    min_align: usize,
    cap: Visibility,
)
    requires
        fields_wf(v.fields@),
        tw >= 1,
        min_align >= 1,
    ensures
        variant_layout(v, tag, tw, min_align, cap) matches Some(vl) ==> layout_valid(vl)
            && vl.align >= min_align,
    decreases v, 1nat,
{
    let tag_slot = SlotV::Discriminant { vis: cap, pattern: tag_bytes(tag as nat, tw as nat) };
    lemma_tag_bytes_len(tag as nat, tw as nat);
    let run = seq![tag_slot];
    lemma_wid_single(tag_slot);
    lemma_single_alt_valid(run);
    let st = Partial {
        offset: tw as nat,
        align: nat_max(min_align as nat, tw as nat),
        alts: seq![run],
    };
    lemma_struct_fold_valid(v.fields@, cap, None, st);
    match struct_fold(v.fields@, cap, None, st) {
        None => {},
        Some(end) => {
            let size = round_up(end.offset, end.align);
            if size <= usize::MAX {
                lemma_round_up(end.offset, end.align);
                lemma_pad_slots(cap, (size - end.offset) as nat);
                lemma_append_to_all_valid(
                    end.alts,
                    pad_slots(cap, (size - end.offset) as nat),
                    end.offset,
                );
            }
        },
    }
}

/// Every variant layout of a tagged union is valid.
pub proof fn lemma_variants_members_valid(
    variants: Seq<VariantDef>,
    next: u64,
    tw: usize,
    min_align: usize,
    cap: Visibility,
)
    requires
        variants_wf(variants),
        tw >= 1,
        min_align >= 1,
    ensures
        variants_members(variants, next, tw, min_align, cap) matches Some(ms) ==> members_all_valid(
            ms,
        ) && ms.len() == variants.len() && (ms.len() >= 1 ==> ms[0].align >= 1),
    decreases variants, 2nat,
{
    if variants.len() > 0 {
        let tag = match variants[0].tag {
            Some(t) => t,
            None => next,
        };
        let after = if tag == u64::MAX {
            0u64
        } else {
            (tag + 1) as u64
        };
        lemma_variant_layout_valid(variants[0], tag, tw, min_align, cap);
        lemma_variants_members_valid(variants.drop_first(), after, tw, min_align, cap);
        match variant_layout(variants[0], tag, tw, min_align, cap) {
            None => {},
            Some(vl) => match variants_members(variants.drop_first(), after, tw, min_align, cap) {
                None => {},
                Some(rest) => {
                    let ms = seq![vl] + rest;
                    assert(ms[0] == vl);
                    assert(ms.drop_first() =~= rest);
                },
            },
        }
    }
}

/// Every member's size is bounded by the members' largest.
pub proof fn lemma_members_size_bound(ms: Seq<LayoutV>)
    ensures
        forall|i: int|
            0 <= i < ms.len() ==> #[trigger] ms[i].size <= members_max_size(ms),
    decreases ms,
{
    if ms.len() > 0 {
        lemma_members_size_bound(ms.drop_first());
        assert forall|i: int| 0 <= i < ms.len() implies #[trigger] ms[i].size <= members_max_size(
            ms,
        ) by {
            if i > 0 {
                assert(ms.drop_first()[i - 1] == ms[i]);
            }
        }
    }
}

/// A well-formed descriptor's computed layout satisfies the layout invariant.
#[verifier::spinoff_prover]
#[verifier::rlimit(50)]
pub proof fn lemma_layout_of_valid(d: Descriptor, cap: Visibility)
    requires
        well_formed(d),
    ensures
        layout_of(d, cap) matches Some(l) ==> layout_valid(l),
    decreases d, 3nat,
{
    match d.shape {
        Shape::Primitive { width, align, kind } => {
            let run = prim_run(kind, cap, width as nat);
            if width > 0 {
                lemma_wid_single(run[0]);
                assert(run =~= seq![run[0]]);
            }
            lemma_single_alt_valid(run);
        },
        Shape::Struct { fields } => {
            let st = Partial {
                offset: 0,
                align: d.min_align as nat,
                alts: seq![Seq::empty()],
            };
            assert(alts_valid(st.alts, 0)) by {
                assert(st.alts.drop_first() =~= Seq::<Seq<SlotV>>::empty());
                assert(alts_valid(st.alts.drop_first(), 0));
                assert(seq_wid(st.alts[0]) == 0);
                assert(slots_valid(st.alts[0]));
            }
            lemma_struct_fold_valid(fields@, cap, d.pack, st);
            match struct_fold(fields@, cap, d.pack, st) {
                None => {},
                Some(end) => {
                    let size = round_up(end.offset, end.align);
                    if size <= usize::MAX {
                        lemma_round_up(end.offset, end.align);
                        lemma_pad_slots(cap, (size - end.offset) as nat);
                        lemma_append_to_all_valid(
                            end.alts,
                            pad_slots(cap, (size - end.offset) as nat),
                            end.offset,
                        );
                    }
                },
            }
        },
        Shape::Union { fields } => {
            lemma_union_members_valid(fields@, cap);
            match union_members(fields@, cap) {
                None => {},
                Some(ms) => {
                    let align = nat_max(d.min_align as nat, members_max_align(ms, d.pack));
                    let size = round_up(members_max_size(ms), align);
                    if size <= usize::MAX {
                        lemma_round_up(members_max_size(ms), align);
                        lemma_members_size_bound(ms);
                        lemma_members_all_padded(ms, size, cap);
                    }
                },
            }
        },
        Shape::Variants { tag_width, variants } => {
            lemma_variants_members_valid(variants@, 0, tag_width, d.min_align, cap);
            match variants_members(variants@, 0, tag_width, d.min_align, cap) {
                None => {},
                Some(ms) => {
                    let align = members_max_align(ms, None);
                    assert(ms.len() >= 1);
                    assert(align >= eff_align(ms[0].align, None));
                    assert(ms[0].align >= 1) by {
                        assert(members_all_valid(ms));
                    }
                    let size = round_up(members_max_size(ms), align);
                    if size <= usize::MAX {
                        lemma_round_up(members_max_size(ms), align);
                        lemma_members_size_bound(ms);
                        lemma_members_all_padded(ms, size, cap);
                    }
                },
            }
        },
        Shape::Reference { mutability, scope, pointee } => {
            lemma_layout_of_valid(*pointee, Visibility::Public);
            match layout_of(*pointee, Visibility::Public) {
                None => {},
                Some(pl) => {
                    let slot = SlotV::Reference {
                        vis: cap,
                        mutability,
                        nonnull: true,
                        scope: scope as nat,
                        pointee: pl,
                    };
                    let run = seq![slot];
                    lemma_wid_single(slot);
                    lemma_single_alt_valid(run);
                },
            }
        },
        Shape::RawPointer { pointee } => {
            lemma_layout_of_valid(*pointee, Visibility::Public);
            match layout_of(*pointee, Visibility::Public) {
                None => {},
                Some(pl) => {
                    let slot = SlotV::Reference {
                        vis: cap,
                        mutability: Mutability::Shared,
                        nonnull: false,
                        scope: 0,
                        pointee: pl,
                    };
                    let run = seq![slot];
                    lemma_wid_single(slot);
                    lemma_single_alt_valid(run);
                },
            }
        },
        Shape::Array(a) => {
            lemma_layout_of_valid(*a.element, cap);
            match layout_of(*a.element, cap) {
                None => {},
                Some(el) => {
                    let n = a.count as nat;
                    if el.size * n <= usize::MAX {
                        lemma_rep_alts_valid(el.alts, n, el.size);
                        assert(n * el.size == el.size * n) by (nonlinear_arith);
                        assert((el.size * n) % el.align == 0) by {
                            vstd::arithmetic::div_mod::lemma_fundamental_div_mod(
                                el.size as int,
                                el.align as int,
                            );
                            let q = el.size as int / el.align as int;
                            assert(el.size * n == el.align * (q * n)) by (nonlinear_arith)
                                requires
                                    el.size == el.align * q + el.size % el.align,
                                    el.size % el.align == 0,
                            ;
                            vstd::arithmetic::div_mod::lemma_mod_multiples_basic(
                                q * (n as int),
                                el.align as int,
                            );
                        }
                    }
                },
            }
        },
    }
}

/// The union and tagged-union combiner: members padded to the common size
/// form a valid, nonempty alternative set.
proof fn lemma_members_all_padded(ms: Seq<LayoutV>, size: nat, cap: Visibility)
    requires
        members_all_valid(ms),
        members_max_size(ms) <= size,
        ms.len() >= 1,
    ensures
        alts_valid(members_padded_alts(ms, size, cap), size),
        members_padded_alts(ms, size, cap).len() >= 1,
{
    lemma_members_padded_alts_valid(ms, size, cap);
}

/// `slots_view` distributes over concatenation.
pub proof fn lemma_slots_view_concat(x: Seq<Slot>, y: Seq<Slot>)
    ensures
        slots_view(x + y) == slots_view(x) + slots_view(y),
{
    lemma_slots_view_index(x);
    lemma_slots_view_index(y);
    lemma_slots_view_index(x + y);
    assert(slots_view(x + y) =~= slots_view(x) + slots_view(y));
}

/// A deep copy of one slot.
pub fn dup_slot(s: &Slot) -> (r: Slot)
    ensures
        r@ == s@,
    decreases s,
{
    match s {
        Slot::Bytes { kind, vis, width } => Slot::Bytes { kind: *kind, vis: *vis, width: *width },
        Slot::Discriminant(d) => Slot::Discriminant(
            Discriminant { vis: d.vis, pattern: dup_bytes(&d.pattern) },
        ),
        Slot::Reference(r) => Slot::Reference(
            Reference {
                vis: r.vis,
                mutability: r.mutability,
                nonnull: r.nonnull,
                scope: r.scope,
                pointee: dup_layout(&r.pointee),
            },
        ),
    }
}

/// A copy of a byte vector.
fn dup_bytes(v: &Vec<u8>) -> (r: Vec<u8>)
    ensures
        r@ == v@,
{
    let mut out: Vec<u8> = Vec::new();
    let mut k: usize = 0;
    while k < v.len()
        invariant
            k <= v@.len(),
            out@ == v@.take(k as int),
        decreases v@.len() - k,
    {
        out.push(v[k]);
        proof {
            assert(v@.take(k as int + 1) =~= v@.take(k as int) + seq![v@[k as int]]);
        }
        k = k + 1;
    }
    proof {
        assert(v@.take(v@.len() as int) =~= v@);
    }
    out
}

/// A deep copy of a slot run.
pub fn dup_slots(v: &Vec<Slot>) -> (r: Vec<Slot>)
    ensures
        r@.len() == v@.len(),
        slots_view(r@) == slots_view(v@),
    decreases v,
{
    let mut out: Vec<Slot> = Vec::new();
    let mut k: usize = 0;
    while k < v.len()
        invariant
            k <= v@.len(),
            out@.len() == k,
            forall|i: int| 0 <= i < k ==> slot_view(out@[i]) == slot_view(v@[i]),
        decreases v@.len() - k,
    {
        let s = dup_slot(&v[k]);
        out.push(s);
        k = k + 1;
    }
    proof {
        lemma_slots_view_index(out@);
        lemma_slots_view_index(v@);
        assert(slots_view(out@) =~= slots_view(v@));
    }
    out
}

/// A deep copy of an alternative set.
pub fn dup_alts(v: &Vec<Vec<Slot>>) -> (r: Vec<Vec<Slot>>)
    ensures
        r@.len() == v@.len(),
        alts_view(r@) == alts_view(v@),
    decreases v,
{
    let mut out: Vec<Vec<Slot>> = Vec::new();
    let mut k: usize = 0;
    while k < v.len()
        invariant
            k <= v@.len(),
            out@.len() == k,
            forall|i: int| 0 <= i < k ==> slots_view(out@[i]@) == slots_view(v@[i]@),
        decreases v@.len() - k,
    {
        let s = dup_slots(&v[k]);
        out.push(s);
        k = k + 1;
    }
    proof {
        lemma_alts_view_index(out@);
        lemma_alts_view_index(v@);
        assert(alts_view(out@) =~= alts_view(v@));
    }
    out
}

/// A deep copy of a layout.
pub fn dup_layout(l: &Layout) -> (r: Layout)
    ensures
        r@ == l@,
    decreases l,
{
    Layout { align: l.align, size: l.size, attested: l.attested, alts: dup_alts(&l.alts) }
}

/// The alternatives of `a` from position `k` on, crossed with all of `b`.
fn cross_from(a: &Vec<Vec<Slot>>, k: usize, b: &Vec<Vec<Slot>>) -> (r: Vec<Vec<Slot>>)
    requires
        k <= a@.len(),
    ensures
        alts_view(r@) == cross(alts_view(a@).skip(k as int), alts_view(b@)),
    decreases a@.len() - k,
{
    let ghost av = alts_view(a@);
    let ghost bv = alts_view(b@);
    proof {
        lemma_alts_view_index(a@);
        lemma_alts_view_index(b@);
    }
    if k == a.len() {
        let out: Vec<Vec<Slot>> = Vec::new();
        proof {
            assert(av.skip(k as int) =~= Seq::<Seq<SlotV>>::empty());
            assert(alts_view(out@) =~= cross(av.skip(k as int), bv));
        }
        return out;
    }
    let mut out: Vec<Vec<Slot>> = Vec::new();
    let mut j: usize = 0;
    while j < b.len()
        invariant
            k < a@.len(),
            j <= b@.len(),
            av == alts_view(a@),
            bv == alts_view(b@),
            av.len() == a@.len(),
            bv.len() == b@.len(),
            forall|i: int| 0 <= i < a@.len() ==> av[i] == slots_view(a@[i]@),
            forall|i: int| 0 <= i < b@.len() ==> bv[i] == slots_view(b@[i]@),
            out@.len() == j,
            forall|jj: int|
                0 <= jj < j ==> slots_view(out@[jj]@) == prefix_all(av[k as int], bv)[jj],
        decreases b@.len() - j,
    {
        let mut row = dup_slots(&a[k]);
        let mut tail = dup_slots(&b[j]);
        let ghost row0 = row@;
        let ghost tail0 = tail@;
        row.append(&mut tail);
        proof {
            lemma_slots_view_concat(row0, tail0);
        }
        out.push(row);
        j = j + 1;
    }
    let mut rest = cross_from(a, k + 1, b);
    let ghost outv = out@;
    let ghost restv = rest@;
    out.append(&mut rest);
    proof {
        lemma_alts_view_index(out@);
        lemma_alts_view_index(outv);
        lemma_alts_view_index(restv);
        assert(av.skip(k as int).drop_first() =~= av.skip(k as int + 1));
        assert(av.skip(k as int)[0] == av[k as int]);
        assert(alts_view(out@) =~= prefix_all(av[k as int], bv) + cross(
            av.skip(k as int + 1),
            bv,
        ));
    }
    out
}

/// The cross product of two alternative sets.
pub fn cross_alts(a: &Vec<Vec<Slot>>, b: &Vec<Vec<Slot>>) -> (r: Vec<Vec<Slot>>)
    ensures
        alts_view(r@) == cross(alts_view(a@), alts_view(b@)),
{
    let r = cross_from(a, 0, b);
    proof {
        assert(alts_view(a@).skip(0) =~= alts_view(a@));
    }
    r
}

/// An element's alternatives repeated `n` times back to back.
fn rep_alts_exec(a: &Vec<Vec<Slot>>, n: usize) -> (r: Vec<Vec<Slot>>)
    ensures
        alts_view(r@) == rep_alts(alts_view(a@), n as nat),
    decreases n,
{
    if n == 0 {
        let mut out: Vec<Vec<Slot>> = Vec::new();
        let empty_row: Vec<Slot> = Vec::new();
        out.push(empty_row);
        proof {
            lemma_alts_view_index(out@);
            assert(alts_view(out@) =~= rep_alts(alts_view(a@), 0));
        }
        out
    } else {
        let rest = rep_alts_exec(a, n - 1);
        cross_alts(a, &rest)
    }
}

/// Every alternative of `alts`, extended by the run `tail`.
fn append_all(alts: &Vec<Vec<Slot>>, tail: &Vec<Slot>) -> (r: Vec<Vec<Slot>>)
    ensures
        alts_view(r@) == append_to_all(alts_view(alts@), slots_view(tail@)),
{
    let ghost av = alts_view(alts@);
    proof {
        lemma_alts_view_index(alts@);
    }
    let mut out: Vec<Vec<Slot>> = Vec::new();
    let mut k: usize = 0;
    let n = alts.len();
    while k < n
        invariant
            n == alts@.len(),
            k <= n,
            av.len() == n,
            forall|i: int| 0 <= i < n ==> av[i] == slots_view(alts@[i]@),
            out@.len() == k,
            forall|i: int|
                0 <= i < k ==> slots_view(out@[i]@) == append_to_all(av, slots_view(tail@))[i],
        decreases n - k,
    {
        let mut row = dup_slots(&alts[k]);
        let mut t = dup_slots(tail);
        let ghost row0 = row@;
        let ghost t0 = t@;
        row.append(&mut t);
        proof {
            lemma_slots_view_concat(row0, t0);
        }
        out.push(row);
        k = k + 1;
    }
    proof {
        lemma_alts_view_index(out@);
        assert(alts_view(out@) =~= append_to_all(av, slots_view(tail@)));
    }
    out
}

/// The little-endian bytes of a tag, truncated to `w` bytes.
fn tag_bytes_exec(t: u64, w: usize) -> (r: Vec<u8>)
    ensures
        r@ == tag_bytes(t as nat, w as nat),
    decreases w,
{
    if w == 0 {
        Vec::new()
    } else {
        let mut rest = tag_bytes_exec(t / 256, w - 1);
        let mut out: Vec<u8> = Vec::new();
        out.push((t % 256) as u8);
        out.append(&mut rest);
        proof {
            assert((t % 256) as nat == (t as nat) % 256);
            assert((t / 256) as nat == (t as nat) / 256);
        }
        out
    }
}

/// Why a layout could not be computed. A descriptor is a finite tree, so a
/// self-referential shape without indirection cannot even be written down;
/// the one thing left to go wrong is the machine's word size.
#[derive(Clone, Copy, Debug, PartialEq, Eq, Structural)]
pub enum LayoutError {
    /// A size or offset of the layout would not fit a machine word.
    Oversize,
}

/// The meet of two visibilities.
pub fn vis_meet(a: Visibility, b: Visibility) -> (r: Visibility)
    ensures
        r == vis_min(a, b),
{
    match (a, b) {
        (Visibility::Public, Visibility::Public) => Visibility::Public,
        _ => Visibility::Private,
    }
}

/// A padding run of `w` uninitialized bytes, as a vector.
fn pad_vec(vis: Visibility, w: usize) -> (r: Vec<Slot>)
    ensures
        slots_view(r@) == pad_slots(vis, w as nat),
{
    let mut out: Vec<Slot> = Vec::new();
    if w > 0 {
        out.push(Slot::Bytes { kind: Kind::Uninitialized, vis, width: w });
        proof {
            lemma_slots_view_index(out@);
            assert(slots_view(out@) =~= pad_slots(vis, w as nat));
        }
    }
    out
}

/// The effective alignment of a field, in words.
fn eff_align_exec(field_align: usize, pack: Option<usize>) -> (r: usize)
    ensures
        r as nat == eff_align(field_align as nat, pack),
{
    match pack {
        None => field_align,
        Some(p) => min_sz(field_align, p),
    }
}

/// One step of the struct calculator, from field `k` on.
fn struct_fold_exec(
    fields: &Vec<Field>,
    k: usize,
    cap: Visibility,
    pack: Option<usize>,
    offset: usize,
    align: usize,
    alts: Vec<Vec<Slot>>,
) -> (r: Result<(usize, usize, Vec<Vec<Slot>>), LayoutError>)
    requires
        k <= fields@.len(),
        fields_wf(fields@.skip(k as int)),
        pack matches Some(p) ==> p >= 1,
    ensures
        ({
            let st = Partial {
                offset: offset as nat,
                align: align as nat,
                alts: alts_view(alts@),
            };
            match struct_fold(fields@.skip(k as int), cap, pack, st) {
                None => r matches Err(e) && e == LayoutError::Oversize,
                Some(end) => r matches Ok(t) && t.0 as nat == end.offset && t.1 as nat == end.align
                    && alts_view(t.2@) == end.alts,
            }
        }),
    decreases fields@.skip(k as int), 0nat,
{
    let ghost fv = fields@.skip(k as int);
    if k == fields.len() {
        proof {
            assert(fv =~= Seq::<Field>::empty());
        }
        return Ok((offset, align, alts));
    }
    proof {
        assert(fv[0] == fields@[k as int]);
        assert(fv.drop_first() =~= fields@.skip(k as int + 1));
    }
    let fvis = vis_meet(fields[k].vis, cap);
    let fl = match compute_layout_with(&fields[k].desc, fvis) {
        Ok(fl) => fl,
        Err(e) => {
            return Err(e);
        },
    };
    proof {
        lemma_layout_of_valid(fields@[k as int].desc, vis_min(fields@[k as int].vis, cap));
    }
    let ea = eff_align_exec(fl.align, pack);
    let padded = match round_up_sz(offset, ea) {
        Some(p) => p,
        None => {
            return Err(LayoutError::Oversize);
        },
    };
    let next_offset = match add_sz(padded, fl.size) {
        Some(o) => o,
        None => {
            return Err(LayoutError::Oversize);
        },
    };
    let pad = pad_vec(cap, padded - offset);
    let with_pad = append_all(&alts, &pad);
    let next_alts = cross_alts(&with_pad, &fl.alts);
    proof {
        assert(layout_view(fl) == layout_of(fields@[k as int].desc, vis_min(fields@[k as int].vis, cap))->Some_0);
    }
    struct_fold_exec(fields, k + 1, cap, pack, next_offset, max_sz(align, ea), next_alts)
}

/// The member layouts of a union, from member `k` on.
fn union_members_exec(fields: &Vec<Field>, k: usize, cap: Visibility) -> (r: Result<
    Vec<Layout>,
    LayoutError,
>)
    requires
        k <= fields@.len(),
        fields_wf(fields@.skip(k as int)),
    ensures
        match union_members(fields@.skip(k as int), cap) {
            None => r matches Err(e) && e == LayoutError::Oversize,
            Some(ms) => r matches Ok(v) && v@.len() == ms.len() && forall|i: int|
                0 <= i < ms.len() ==> #[trigger] layout_view(v@[i]) == ms[i],
        },
    decreases fields@.skip(k as int), 0nat,
{
    let ghost fv = fields@.skip(k as int);
    if k == fields.len() {
        proof {
            assert(fv =~= Seq::<Field>::empty());
        }
        return Ok(Vec::new());
    }
    proof {
        assert(fv[0] == fields@[k as int]);
        assert(fv.drop_first() =~= fields@.skip(k as int + 1));
    }
    let fvis = vis_meet(fields[k].vis, cap);
    let fl = match compute_layout_with(&fields[k].desc, fvis) {
        Ok(fl) => fl,
        Err(e) => {
            return Err(e);
        },
    };
    let rest = match union_members_exec(fields, k + 1, cap) {
        Ok(v) => v,
        Err(e) => {
            return Err(e);
        },
    };
    let mut out: Vec<Layout> = Vec::new();
    out.push(fl);
    let mut rest = rest;
    out.append(&mut rest);
    Ok(out)
}

/// The layout of one variant: the discriminant, then the variant's fields,
/// then trailing padding up to the variant's own alignment.
fn variant_layout_exec(
    v: &VariantDef,
    tag: u64,
    tw: usize,
    min_align: usize,
    cap: Visibility,
) -> (r: Result<Layout, LayoutError>)
    requires
        fields_wf(v.fields@),
        tw >= 1,
        min_align >= 1,
    ensures
        match variant_layout(*v, tag, tw, min_align, cap) {
            None => r matches Err(e) && e == LayoutError::Oversize,
            Some(vl) => r matches Ok(l) && l@ == vl,
        },
    decreases *v, 1nat,
{
    let pattern = tag_bytes_exec(tag, tw);
    let tag_slot = Slot::Discriminant(Discriminant { vis: cap, pattern });
    let mut run: Vec<Slot> = Vec::new();
    run.push(tag_slot);
    let mut alts: Vec<Vec<Slot>> = Vec::new();
    alts.push(run);
    proof {
        lemma_alts_view_index(alts@);
        lemma_slots_view_index(alts@[0]@);
        assert(alts_view(alts@) =~~= seq![
            seq![SlotV::Discriminant { vis: cap, pattern: tag_bytes(tag as nat, tw as nat) }],
        ]);
        assert(v.fields@.skip(0) =~= v.fields@);
    }
    let ghost tag_slot_v = SlotV::Discriminant {
        vis: cap,
        pattern: tag_bytes(tag as nat, tw as nat),
    };
    let ghost st_spec = Partial {
        offset: tw as nat,
        align: nat_max(min_align as nat, tw as nat),
        alts: seq![seq![tag_slot_v]],
    };
    proof {
        lemma_tag_bytes_len(tag as nat, tw as nat);
        lemma_wid_single(tag_slot_v);
        lemma_single_alt_valid(seq![tag_slot_v]);
        lemma_struct_fold_valid(v.fields@, cap, None, st_spec);
    }
    let st = struct_fold_exec(&v.fields, 0, cap, None, tw, max_sz(min_align, tw), alts);
    let (offset, align, body) = match st {
        Ok(t) => t,
        Err(e) => {
            return Err(e);
        },
    };
    let size = match round_up_sz(offset, align) {
        Some(s) => s,
        None => {
            return Err(LayoutError::Oversize);
        },
    };
    proof {
        lemma_round_up(offset as nat, align as nat);
    }
    let pad = pad_vec(cap, size - offset);
    let full = append_all(&body, &pad);
    Ok(Layout { align, size, attested: false, alts: full })
}

/// The variant layouts of a tagged union, from variant `k` on, `next` being
/// the tag the next unspecified variant gets.
fn variants_members_exec(
    variants: &Vec<VariantDef>,
    k: usize,
    next: u64,
    tw: usize,
    min_align: usize,
    cap: Visibility,
) -> (r: Result<Vec<Layout>, LayoutError>)
    requires
        k <= variants@.len(),
        variants_wf(variants@.skip(k as int)),
        tw >= 1,
        min_align >= 1,
    ensures
        match variants_members(variants@.skip(k as int), next, tw, min_align, cap) {
            None => r matches Err(e) && e == LayoutError::Oversize,
            Some(ms) => r matches Ok(v) && v@.len() == ms.len() && forall|i: int|
                0 <= i < ms.len() ==> #[trigger] layout_view(v@[i]) == ms[i],
        },
    decreases variants@.skip(k as int), 2nat,
{
    let ghost vv = variants@.skip(k as int);
    if k == variants.len() {
        proof {
            assert(vv =~= Seq::<VariantDef>::empty());
        }
        return Ok(Vec::new());
    }
    proof {
        assert(vv[0] == variants@[k as int]);
        assert(vv.drop_first() =~= variants@.skip(k as int + 1));
    }
    let tag = match variants[k].tag {
        Some(t) => t,
        None => next,
    };
    let after = if tag == u64::MAX {
        0u64
    } else {
        tag + 1
    };
    let vl = match variant_layout_exec(&variants[k], tag, tw, min_align, cap) {
        Ok(l) => l,
        Err(e) => {
            return Err(e);
        },
    };
    let rest = match variants_members_exec(variants, k + 1, after, tw, min_align, cap) {
        Ok(v) => v,
        Err(e) => {
            return Err(e);
        },
    };
    let mut out: Vec<Layout> = Vec::new();
    out.push(vl);
    let mut rest = rest;
    out.append(&mut rest);
    Ok(out)
}

/// The largest effective member alignment, from member `k` on.
fn members_max_align_exec(
    v: &Vec<Layout>,
    k: usize,
    pack: Option<usize>,
    Ghost(ms): Ghost<Seq<LayoutV>>,
) -> (r: usize)
    requires
        k <= v@.len(),
        v@.len() == ms.len(),
        forall|i: int| 0 <= i < ms.len() ==> #[trigger] layout_view(v@[i]) == ms[i],
    ensures
        r as nat == members_max_align(ms.skip(k as int), pack),
    decreases v@.len() - k,
{
    if k == v.len() {
        proof {
            assert(ms.skip(k as int) =~= Seq::<LayoutV>::empty());
        }
        return 0;
    }
    proof {
        assert(ms.skip(k as int)[0] == ms[k as int]);
        assert(ms.skip(k as int).drop_first() =~= ms.skip(k as int + 1));
        assert(layout_view(v@[k as int]) == ms[k as int]);
    }
    let rest = members_max_align_exec(v, k + 1, pack, Ghost(ms));
    max_sz(eff_align_exec(v[k].align, pack), rest)
}

/// The largest member size, from member `k` on.
fn members_max_size_exec(v: &Vec<Layout>, k: usize, Ghost(ms): Ghost<Seq<LayoutV>>) -> (r: usize)
    requires
        k <= v@.len(),
        v@.len() == ms.len(),
        forall|i: int| 0 <= i < ms.len() ==> #[trigger] layout_view(v@[i]) == ms[i],
    ensures
        r as nat == members_max_size(ms.skip(k as int)),
    decreases v@.len() - k,
{
    if k == v.len() {
        proof {
            assert(ms.skip(k as int) =~= Seq::<LayoutV>::empty());
        }
        return 0;
    }
    proof {
        assert(ms.skip(k as int)[0] == ms[k as int]);
        assert(ms.skip(k as int).drop_first() =~= ms.skip(k as int + 1));
        assert(layout_view(v@[k as int]) == ms[k as int]);
    }
    let rest = members_max_size_exec(v, k + 1, Ghost(ms));
    max_sz(v[k].size, rest)
}

/// Every member's alternatives padded up to the common size, from member `k`
/// on.
fn members_padded_exec(
    v: &Vec<Layout>,
    k: usize,
    size: usize,
    cap: Visibility,
    Ghost(ms): Ghost<Seq<LayoutV>>,
) -> (r: Vec<Vec<Slot>>)
    requires
        k <= v@.len(),
        v@.len() == ms.len(),
        forall|i: int| 0 <= i < ms.len() ==> #[trigger] layout_view(v@[i]) == ms[i],
        forall|i: int| 0 <= i < ms.len() ==> #[trigger] ms[i].size <= size as nat,
    ensures
        alts_view(r@) == members_padded_alts(ms.skip(k as int), size as nat, cap),
    decreases v@.len() - k,
{
    if k == v.len() {
        let out: Vec<Vec<Slot>> = Vec::new();
        proof {
            assert(ms.skip(k as int) =~= Seq::<LayoutV>::empty());
            assert(alts_view(out@) =~= members_padded_alts(ms.skip(k as int), size as nat, cap));
        }
        return out;
    }
    proof {
        assert(ms.skip(k as int)[0] == ms[k as int]);
        assert(ms.skip(k as int).drop_first() =~= ms.skip(k as int + 1));
        assert(layout_view(v@[k as int]) == ms[k as int]);
        assert(v@[k as int].size as nat == ms[k as int].size);
    }
    let pad = pad_vec(cap, size - v[k].size);
    let mut head = append_all(&v[k].alts, &pad);
    let mut rest = members_padded_exec(v, k + 1, size, cap, Ghost(ms));
    let ghost headv = head@;
    let ghost restv = rest@;
    head.append(&mut rest);
    proof {
        lemma_alts_view_index(head@);
        lemma_alts_view_index(headv);
        lemma_alts_view_index(restv);
        assert(alts_view(head@) =~= alts_view(headv) + alts_view(restv));
    }
    head
}

/// The layout of a well-formed descriptor, with every byte reached through a
/// less visible field capped at `cap`; `Err` exactly where a size or offset
/// would not fit a machine word.
#[verifier::spinoff_prover]
#[verifier::rlimit(80)]
pub fn compute_layout_with(d: &Descriptor, cap: Visibility) -> (r: Result<Layout, LayoutError>)
    requires
        well_formed(*d),
    ensures
        match layout_of(*d, cap) {
            None => r matches Err(e) && e == LayoutError::Oversize,
            Some(l) => r matches Ok(lay) && lay@ == l && layout_valid(l),
        },
    decreases *d, 3nat,
{
    proof {
        lemma_layout_of_valid(*d, cap);
    }
    match &d.shape {
        Shape::Primitive { width, align, kind } => {
            let mut run: Vec<Slot> = Vec::new();
            if *width > 0 {
                run.push(Slot::Bytes { kind: *kind, vis: cap, width: *width });
            }
            let mut alts: Vec<Vec<Slot>> = Vec::new();
            proof {
                lemma_slots_view_index(run@);
                assert(slots_view(run@) =~= prim_run(*kind, cap, *width as nat));
            }
            alts.push(run);
            proof {
                lemma_alts_view_index(alts@);
                assert(alts_view(alts@) =~= seq![prim_run(*kind, cap, *width as nat)]);
            }
            Ok(Layout { align: *align, size: *width, attested: d.attested, alts })
        },
        Shape::Struct { fields } => {
            let mut empty_row: Vec<Slot> = Vec::new();
            let mut alts0: Vec<Vec<Slot>> = Vec::new();
            alts0.push(empty_row);
            proof {
                lemma_alts_view_index(alts0@);
                assert(alts_view(alts0@) =~= seq![Seq::<SlotV>::empty()]);
                assert(fields@.skip(0) =~= fields@);
            }
            let (offset, align, body) = match struct_fold_exec(
                fields,
                0,
                cap,
                d.pack,
                0,
                d.min_align,
                alts0,
            ) {
                Ok(t) => t,
                Err(e) => {
                    return Err(e);
                },
            };
            let size = match round_up_sz(offset, align) {
                Some(s) => s,
                None => {
                    return Err(LayoutError::Oversize);
                },
            };
            let pad = pad_vec(cap, size - offset);
            let full = append_all(&body, &pad);
            proof {
                lemma_round_up(offset as nat, align as nat);
            }
            Ok(Layout { align, size, attested: d.attested, alts: full })
        },
        Shape::Union { fields } => {
            proof {
                assert(fields@.skip(0) =~= fields@);
            }
            let members = match union_members_exec(fields, 0, cap) {
                Ok(v) => v,
                Err(e) => {
                    return Err(e);
                },
            };
            let ghost ms = union_members(fields@, cap)->Some_0;
            proof {
                assert(ms.skip(0) =~= ms);
            }
            let align = max_sz(d.min_align, members_max_align_exec(&members, 0, d.pack, Ghost(ms)));
            let size0 = members_max_size_exec(&members, 0, Ghost(ms));
            let size = match round_up_sz(size0, align) {
                Some(s) => s,
                None => {
                    return Err(LayoutError::Oversize);
                },
            };
            proof {
                lemma_round_up(size0 as nat, align as nat);
                lemma_members_size_bound(ms);
            }
            let alts = members_padded_exec(&members, 0, size, cap, Ghost(ms));
            Ok(Layout { align, size, attested: d.attested, alts })
        },
        Shape::Variants { tag_width, variants } => {
            proof {
                assert(variants@.skip(0) =~= variants@);
            }
            let members = match variants_members_exec(
                variants,
                0,
                0,
                *tag_width,
                d.min_align,
                cap,
            ) {
                Ok(v) => v,
                Err(e) => {
                    return Err(e);
                },
            };
            let ghost ms = variants_members(variants@, 0, *tag_width, d.min_align, cap)->Some_0;
            proof {
                assert(ms.skip(0) =~= ms);
            }
            let align = members_max_align_exec(&members, 0, None, Ghost(ms));
            let size0 = members_max_size_exec(&members, 0, Ghost(ms));
            let size = match round_up_sz(size0, align) {
                Some(s) => s,
                None => {
                    return Err(LayoutError::Oversize);
                },
            };
            proof {
                lemma_round_up(size0 as nat, align as nat);
                lemma_members_size_bound(ms);
            }
            let alts = members_padded_exec(&members, 0, size, cap, Ghost(ms));
            Ok(Layout { align, size, attested: d.attested, alts })
        },
        Shape::Reference { mutability, scope, pointee } => {
            let pl = match compute_layout_with(pointee, Visibility::Public) {
                Ok(l) => l,
                Err(e) => {
                    return Err(e);
                },
            };
            let slot = Slot::Reference(
                Reference {
                    vis: cap,
                    mutability: *mutability,
                    nonnull: true,
                    scope: *scope,
                    pointee: pl,
                },
            );
            let mut run: Vec<Slot> = Vec::new();
            run.push(slot);
            let mut alts: Vec<Vec<Slot>> = Vec::new();
            proof {
                lemma_slots_view_index(run@);
            }
            alts.push(run);
            proof {
                lemma_alts_view_index(alts@);
                assert(alts_view(alts@) =~= seq![slots_view(alts@[0]@)]);
                assert(slots_view(alts@[0]@) =~= seq![slot_view(alts@[0]@[0])]);
            }
            Ok(
                Layout {
                    align: POINTER_WIDTH,
                    size: POINTER_WIDTH,
                    attested: d.attested,
                    alts,
                },
            )
        },
        Shape::RawPointer { pointee } => {
            let pl = match compute_layout_with(pointee, Visibility::Public) {
                Ok(l) => l,
                Err(e) => {
                    return Err(e);
                },
            };
            let slot = Slot::Reference(
                Reference {
                    vis: cap,
                    mutability: Mutability::Shared,
                    nonnull: false,
                    scope: 0,
                    pointee: pl,
                },
            );
            let mut run: Vec<Slot> = Vec::new();
            run.push(slot);
            let mut alts: Vec<Vec<Slot>> = Vec::new();
            proof {
                lemma_slots_view_index(run@);
            }
            alts.push(run);
            proof {
                lemma_alts_view_index(alts@);
                assert(alts_view(alts@) =~= seq![slots_view(alts@[0]@)]);
                assert(slots_view(alts@[0]@) =~= seq![slot_view(alts@[0]@[0])]);
            }
            Ok(
                Layout {
                    align: POINTER_WIDTH,
                    size: POINTER_WIDTH,
                    attested: d.attested,
                    alts,
                },
            )
        },
        Shape::Array(a) => {
            let el = match compute_layout_with(&a.element, cap) {
                Ok(l) => l,
                Err(e) => {
                    return Err(e);
                },
            };
            let size = match mul_sz(el.size, a.count) {
                Some(s) => s,
                None => {
                    return Err(LayoutError::Oversize);
                },
            };
            let alts = rep_alts_exec(&el.alts, a.count);
            Ok(Layout { align: el.align, size, attested: d.attested, alts })
        },
    }
}

/// The concrete layout of a well-formed descriptor: its size, alignment and
/// byte-level slot alternatives. `Err` exactly where a size or offset of the
/// layout would not fit a machine word.
pub fn compute_layout(d: &Descriptor) -> (r: Result<Layout, LayoutError>)
    requires
        well_formed(*d),
    ensures
        match layout_of(*d, Visibility::Public) {
            None => r matches Err(e) && e == LayoutError::Oversize,
            Some(l) => r matches Ok(lay) && lay@ == l && layout_valid(l),
        },
{
    compute_layout_with(d, Visibility::Public)
}

/// Whether a descriptor is structurally valid.
pub fn is_well_formed(d: &Descriptor) -> (b: bool)
    ensures
        b == well_formed(*d),
    decreases *d, 1nat,
{
    match &d.shape {
        Shape::Primitive { width, align, .. } => d.min_align == 1 && d.pack.is_none() && *align >= 1
            && *width % *align == 0,
        Shape::Struct { fields } => {
            proof {
                assert(fields@.skip(0) =~= fields@);
            }
            let knobs = d.min_align >= 1 && (match d.pack {
                Some(p) => p >= 1,
                None => true,
            });
            knobs && fields_wf_exec(fields, 0)
        },
        Shape::Union { fields } => {
            proof {
                assert(fields@.skip(0) =~= fields@);
            }
            let knobs = d.min_align >= 1 && (match d.pack {
                Some(p) => p >= 1,
                None => true,
            });
            knobs && fields.len() >= 1 && fields_wf_exec(fields, 0)
        },
        Shape::Variants { tag_width, variants } => {
            proof {
                assert(variants@.skip(0) =~= variants@);
            }
            let knobs = d.min_align >= 1 && d.pack.is_none() && (*tag_width == 1 || *tag_width == 2
                || *tag_width == 4 || *tag_width == 8);
            knobs && variants.len() >= 1 && variants_wf_exec(variants, 0)
        },
        Shape::Reference { pointee, .. } => d.min_align == 1 && d.pack.is_none() && is_well_formed(
            pointee,
        ),
        Shape::RawPointer { pointee } => d.min_align == 1 && d.pack.is_none() && is_well_formed(
            pointee,
        ),
        Shape::Array(a) => d.min_align == 1 && d.pack.is_none() && is_well_formed(&a.element),
    }
}

/// Whether every field from `k` on is well-formed.
fn fields_wf_exec(fields: &Vec<Field>, k: usize) -> (b: bool)
    requires
        k <= fields@.len(),
    ensures
        b == fields_wf(fields@.skip(k as int)),
    decreases fields@.skip(k as int), 0nat,
{
    let ghost fv = fields@.skip(k as int);
    if k == fields.len() {
        proof {
            assert(fv =~= Seq::<Field>::empty());
        }
        true
    } else {
        proof {
            assert(fv[0] == fields@[k as int]);
            assert(fv.drop_first() =~= fields@.skip(k as int + 1));
        }
        is_well_formed(&fields[k].desc) && fields_wf_exec(fields, k + 1)
    }
}

/// Whether every variant from `k` on is well-formed.
fn variants_wf_exec(variants: &Vec<VariantDef>, k: usize) -> (b: bool)
    requires
        k <= variants@.len(),
    ensures
        b == variants_wf(variants@.skip(k as int)),
    decreases variants@.skip(k as int), 2nat,
{
    let ghost vv = variants@.skip(k as int);
    if k == variants.len() {
        proof {
            assert(vv =~= Seq::<VariantDef>::empty());
        }
        true
    } else {
        proof {
            assert(vv[0] == variants@[k as int]);
            assert(vv.drop_first() =~= variants@.skip(k as int + 1));
            assert(variants@[k as int].fields@.skip(0) =~= variants@[k as int].fields@);
        }
        fields_wf_exec(&variants[k].fields, 0) && variants_wf_exec(variants, k + 1)
    }
}

impl Descriptor {
    /// A primitive descriptor, in the named vocabulary: `width` bytes of the
    /// class `kind`, aligned to `align`.
    pub fn primitive<K: KindChoice>(width: usize, align: usize, kind: K, attested: bool) -> (d:
        Descriptor)
        ensures
            d == (Descriptor {
                shape: Shape::Primitive { width, align, kind: kind.chosen() },
                min_align: 1,
                pack: None,
                attested,
            }),
            align >= 1 && width as nat % align as nat == 0 ==> well_formed(d),
    {
        Descriptor {
            shape: Shape::Primitive { width, align, kind: kind.pick() },
            min_align: 1,
            pack: None,
            attested,
        }
    }

    /// A plain struct descriptor of the given fields, without raised
    /// alignment or packing.
    pub fn structure(fields: Vec<Field>, attested: bool) -> (d: Descriptor)
        ensures
            d == (Descriptor {
                shape: Shape::Struct { fields },
                min_align: 1,
                pack: None,
                attested,
            }),
            fields_wf(fields@) ==> well_formed(d),
    {
        Descriptor { shape: Shape::Struct { fields }, min_align: 1, pack: None, attested }
    }

    /// A reference descriptor, in the named vocabulary: a non-null pointer of
    /// the chosen mutability and lifetime scope.
    pub fn reference<M: MutabilityChoice>(
        mutability: M,
        scope: u64,
        pointee: Descriptor,
        attested: bool,
    ) -> (d: Descriptor)
        ensures
            d.shape matches Shape::Reference { mutability: m, scope: s, pointee: p } && m
                == mutability.chosen() && s == scope && *p == pointee,
            default_knobs(d),
            d.attested == attested,
            well_formed(pointee) ==> well_formed(d),
    {
        Descriptor {
            shape: Shape::Reference {
                mutability: mutability.pick(),
                scope,
                pointee: Box::new(pointee),
            },
            min_align: 1,
            pack: None,
            attested,
        }
    }

    /// An array descriptor: `count` elements back to back.
    pub fn repetition(element: Descriptor, count: usize, attested: bool) -> (d: Descriptor)
        ensures
            d.shape matches Shape::Array(a) && *a.element == element && a.count == count,
            default_knobs(d),
            d.attested == attested,
            well_formed(element) ==> well_formed(d),
    {
        Descriptor {
            shape: Shape::Array(Array { element: Box::new(element), count }),
            min_align: 1,
            pack: None,
            attested,
        }
    }
}

impl Field {
    /// A field, in the named vocabulary: its visibility and its shape.
    pub fn of<V: VisibilityChoice>(vis: V, desc: Descriptor) -> (f: Field)
        ensures
            f.vis == vis.chosen() && f.desc == desc,
    {
        Field { vis: vis.pick(), desc }
    }
}

} // verus!
