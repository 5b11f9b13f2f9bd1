//! Named opt-outs: each guarantee the checker gives by default has an
//! explicit name a caller uses to decline it, so call sites read as the list
//! of guarantees they waive.

use crate::policy::Policy;
use vstd::prelude::*;

verus! {

/// Neglect statically proving pointer alignment: the destination pointee of a
/// reference pair may then be more strictly aligned than the source's, and
/// the caller must check alignment at run time instead.
pub struct Alignment;

/// Neglect visibility checking on destination bytes: the caller vouches that
/// the destination type's hidden invariants hold of the bytes produced.
pub struct Transparency;

/// Neglect the demand that both layouts are attested external contracts.
pub struct Stability;

/// Neglect the structural validity check altogether: the caller asserts that
/// the source value is a valid instance of the destination.
pub struct Validity;

/// The strictest option bundle: nothing neglected, exact validity.
pub struct Constrain;

/// The weakest option bundle: every dimension relaxed.
pub struct Relax;

/// An option bundle for conversions that may need `unsafe` escape hatches:
/// the policy it denotes.
pub trait UnsafeTransmuteOptions {
    spec fn policy_spec(&self) -> Policy;

    fn policy(&self) -> (p: Policy)
        ensures
            p == self.policy_spec(),
    ;
}

/// The option bundles a safe conversion may use: the default, and neglecting
/// stability alone (everything else keeps the byte-level check sound).
pub trait TransmuteOptions: UnsafeTransmuteOptions {

}

impl UnsafeTransmuteOptions for () {
    open spec fn policy_spec(&self) -> Policy {
        Policy::default_spec()
    }

    fn policy(&self) -> Policy {
        Policy::default()
    }
}

impl TransmuteOptions for () {

}

impl UnsafeTransmuteOptions for Stability {
    open spec fn policy_spec(&self) -> Policy {
        Policy {
            stability: crate::policy::Stability::Unstable,
            ..Policy::default_spec()
        }
    }

    fn policy(&self) -> Policy {
        let mut p = Policy::default();
        p.stability = crate::policy::Stability::Unstable;
        p
    }
}

impl TransmuteOptions for Stability {

}

impl UnsafeTransmuteOptions for Alignment {
    open spec fn policy_spec(&self) -> Policy {
        Policy {
            alignment: crate::policy::Alignment::Unchecked,
            ..Policy::default_spec()
        }
    }

    fn policy(&self) -> Policy {
        let mut p = Policy::default();
        p.alignment = crate::policy::Alignment::Unchecked;
        p
    }
}

impl UnsafeTransmuteOptions for Transparency {
    open spec fn policy_spec(&self) -> Policy {
        Policy {
            transparency: crate::policy::Transparency::Unenforced,
            ..Policy::default_spec()
        }
    }

    fn policy(&self) -> Policy {
        let mut p = Policy::default();
        p.transparency = crate::policy::Transparency::Unenforced;
        p
    }
}

impl UnsafeTransmuteOptions for Validity {
    open spec fn policy_spec(&self) -> Policy {
        Policy {
            validity: crate::policy::Validity::MaybeInvalid,
            ..Policy::default_spec()
        }
    }

    fn policy(&self) -> Policy {
        let mut p = Policy::default();
        p.validity = crate::policy::Validity::MaybeInvalid;
        p
    }
}

impl UnsafeTransmuteOptions for Constrain {
    open spec fn policy_spec(&self) -> Policy {
        Policy::strict_spec()
    }

    fn policy(&self) -> Policy {
        Policy::strict()
    }
}

impl UnsafeTransmuteOptions for Relax {
    open spec fn policy_spec(&self) -> Policy {
        Policy {
            variance: crate::policy::Variance::Variant,
            alignment: crate::policy::Alignment::Unchecked,
            transparency: crate::policy::Transparency::Unenforced,
            stability: crate::policy::Stability::Unstable,
            validity: crate::policy::Validity::MaybeInvalid,
        }
    }

    fn policy(&self) -> Policy {
        Policy {
            variance: crate::policy::Variance::Variant,
            alignment: crate::policy::Alignment::Unchecked,
            transparency: crate::policy::Transparency::Unenforced,
            stability: crate::policy::Stability::Unstable,
            validity: crate::policy::Validity::MaybeInvalid,
        }
    }
}

} // verus!
