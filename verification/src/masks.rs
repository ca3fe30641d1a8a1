//! Correlated randomness for the masked-input protocol: per slot, a pair of
//! halves of the secret mask and of the `r`, `v`, `u`, `w` Beaver-triple
//! components, correlated multiplicatively across the two providers.

use vstd::prelude::*;

verus! {

use crate::field::{add_mod, mul_mod, P};
use vstd::arithmetic::div_mod::lemma_add_mod_noop;

/// One slot of correlated randomness for a two-provider deployment.
#[derive(Clone, Copy, PartialEq, Eq, Debug)]
pub struct InputMasksObject {
    pub secret: (u128, u128),
    pub r: (u128, u128),
    pub v: (u128, u128),
    pub u: (u128, u128),
    pub w: (u128, u128),
}

/// Every component is a reduced field element, and the `w` and `u` halves
/// carry the multiplicative correlations the downstream engine expects:
/// `w_i = s_i*r_i + s_i*r_(1-i)` and `u_i = v_i*r_i + v_i*r_(1-i)`.
pub open spec fn mask_wf(m: InputMasksObject) -> bool {
    &&& m.secret.0 < P
    &&& m.secret.1 < P
    &&& m.r.0 < P
    &&& m.r.1 < P
    &&& m.v.0 < P
    &&& m.v.1 < P
    &&& m.u.0 < P
    &&& m.u.1 < P
    &&& m.w.0 < P
    &&& m.w.1 < P
    &&& m.w.0 as int == (m.secret.0 as int * m.r.0 as int + m.secret.0 as int * m.r.1 as int) % (
        P as int)
    &&& m.w.1 as int == (m.secret.1 as int * m.r.1 as int + m.secret.1 as int * m.r.0 as int) % (
        P as int)
    &&& m.u.0 as int == (m.v.0 as int * m.r.0 as int + m.v.0 as int * m.r.1 as int) % (P as int)
    &&& m.u.1 as int == (m.v.1 as int * m.r.1 as int + m.v.1 as int * m.r.0 as int) % (P as int)
}

/// Relies on rand::random: one value from the thread's generator.  Nothing
/// is promised of it; callers reduce it and state what holds of any value.
#[verifier::external_body]
fn random_u128() -> u128 {
    rand::random::<u128>()
}

/// A fresh, reduced field element.
fn random_field_element() -> (x: u128)
    ensures
        x < P,
{
    random_u128() % P
}

impl InputMasksObject {
    /// Draw the `r` and `v` components and derive the correlated `w` and
    /// `u` components for a given secret-mask pair.
    pub fn generate_for(s: (u128, u128)) -> (m: InputMasksObject)
        requires
            s.0 < P,
            s.1 < P,
        ensures
            mask_wf(m),
            m.secret == s,
    {
        let r = (random_field_element(), random_field_element());
        let v = (random_field_element(), random_field_element());
        let w = (
            add_mod(mul_mod(s.0, r.0, P), mul_mod(s.0, r.1, P), P),
            add_mod(mul_mod(s.1, r.1, P), mul_mod(s.1, r.0, P), P),
        );
        let u = (
            add_mod(mul_mod(v.0, r.0, P), mul_mod(v.0, r.1, P), P),
            add_mod(mul_mod(v.1, r.1, P), mul_mod(v.1, r.0, P), P),
        );
        proof {
            lemma_add_mod_noop(s.0 as int * r.0 as int, s.0 as int * r.1 as int, P as int);
            lemma_add_mod_noop(s.1 as int * r.1 as int, s.1 as int * r.0 as int, P as int);
            lemma_add_mod_noop(v.0 as int * r.0 as int, v.0 as int * r.1 as int, P as int);
            lemma_add_mod_noop(v.1 as int * r.1 as int, v.1 as int * r.0 as int, P as int);
        }
        InputMasksObject { secret: s, r, v, u, w }
    }

    /// Draw a fresh secret-mask pair and the randomness correlated with it.
    pub fn generate() -> (m: InputMasksObject)
        ensures
            mask_wf(m),
    {
        let s = (random_field_element(), random_field_element());
        InputMasksObject::generate_for(s)
    }
}

} // verus!
