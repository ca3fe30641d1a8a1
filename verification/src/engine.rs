//! The secret-share engine: a process-wide store of correlated randomness
//! and secret-share records, and the masked-input protocol that turns a
//! blinded upload into this provider's additive share.
//!
//! State machine per secret identifier: unseeded, masked (masks generated),
//! partially shared (one provider holds a half), fully shared.  Deletion
//! purges the record.  Masks are generated at most once per identifier:
//! regeneration would silently invalidate shares already computed against
//! the old randomness.

use vstd::prelude::*;

verus! {

use crate::b64::{b64_of, b64_bytes_of, b64_encode, b64_decode};
use crate::codec::{gfp_of, le_val, wire_block, to_gfp, to_bigint_arr};
use crate::error::Error;
use crate::field::{add_mod, P, R, R_INV};
use crate::masks::{InputMasksObject, mask_wf};
use crate::table::Table;
use vstd::arithmetic::div_mod::{
    lemma_small_mod, lemma_add_mod_noop, lemma_add_mod_noop_right, lemma_hoist_over_denominator,
    lemma_fundamental_div_mod,
};

/// One base64-encoded, field-encoded blinded value of a masked upload.
#[derive(Debug, PartialEq, Eq)]
pub struct DataObject {
    pub value: String,
}

/// One provider's transport bundle: base64 texts of the concatenated wire
/// blocks of the secret halves and of the four randomness components.
#[derive(Debug, PartialEq, Eq)]
pub struct OutputDeliveryObject {
    pub secret_shares: String,
    pub r_shares: String,
    pub v_shares: String,
    pub w_shares: String,
    pub u_shares: String,
}

/// Which component of a mask slot a bundle column carries.
pub open spec fn component_half(m: InputMasksObject, sel: u8, one: bool) -> u128 {
    if sel == 0 {
        if one { m.secret.1 } else { m.secret.0 }
    } else if sel == 1 {
        if one { m.r.1 } else { m.r.0 }
    } else if sel == 2 {
        if one { m.v.1 } else { m.v.0 }
    } else if sel == 3 {
        if one { m.u.1 } else { m.u.0 }
    } else {
        if one { m.w.1 } else { m.w.0 }
    }
}

pub open spec fn component_halves(masks: Seq<InputMasksObject>, sel: u8, one: bool) -> Seq<u128> {
    masks.map(|j: int, m: InputMasksObject| component_half(m, sel, one))
}

/// One provider's halves of a secret-share record.
pub open spec fn record_halves(rec: Seq<(u128, u128)>, one: bool) -> Seq<u128> {
    rec.map(|j: int, p: (u128, u128)| if one { p.1 } else { p.0 })
}

/// The concatenated wire blocks of a list of field elements.
pub open spec fn packed(vals: Seq<u128>, r: int, p: int) -> Seq<u8>
    decreases vals.len(),
{
    if vals.len() == 0 {
        Seq::empty()
    } else {
        packed(vals.drop_last(), r, p) + gfp_of(vals.last() as int, r, p)
    }
}

/// The five texts of a bundle drawn from one mask list: each is the
/// base64 text of its packed component, and decodes back to those bytes.
pub open spec fn bundle_matches(odo: OutputDeliveryObject, masks: Seq<InputMasksObject>, one: bool) -> bool {
    &&& odo.secret_shares@ == b64_of(packed(component_halves(masks, 0, one), R as int, P as int))
    &&& odo.r_shares@ == b64_of(packed(component_halves(masks, 1, one), R as int, P as int))
    &&& odo.v_shares@ == b64_of(packed(component_halves(masks, 2, one), R as int, P as int))
    &&& odo.u_shares@ == b64_of(packed(component_halves(masks, 3, one), R as int, P as int))
    &&& odo.w_shares@ == b64_of(packed(component_halves(masks, 4, one), R as int, P as int))
    &&& b64_bytes_of(odo.secret_shares@) == Some(
        packed(component_halves(masks, 0, one), R as int, P as int),
    )
    &&& b64_bytes_of(odo.r_shares@) == Some(
        packed(component_halves(masks, 1, one), R as int, P as int),
    )
    &&& b64_bytes_of(odo.v_shares@) == Some(
        packed(component_halves(masks, 2, one), R as int, P as int),
    )
    &&& b64_bytes_of(odo.u_shares@) == Some(
        packed(component_halves(masks, 3, one), R as int, P as int),
    )
    &&& b64_bytes_of(odo.w_shares@) == Some(
        packed(component_halves(masks, 4, one), R as int, P as int),
    )
}

/// The engine owns the only two concurrently mutated maps of the system;
/// nothing exposes them by reference.
pub struct SecretShareEngine {
    masks: Table<Vec<InputMasksObject>>,
    secrets: Table<Vec<(u128, u128)>>,
}

impl SecretShareEngine {
    pub closed spec fn has_masks(&self, id: Seq<char>) -> bool {
        self.masks@.contains_key(id)
    }

    pub closed spec fn masks_for(&self, id: Seq<char>) -> Seq<InputMasksObject> {
        self.masks@[id]@
    }

    pub closed spec fn has_record(&self, id: Seq<char>) -> bool {
        self.secrets@.contains_key(id)
    }

    pub closed spec fn record(&self, id: Seq<char>) -> Seq<(u128, u128)> {
        self.secrets@[id]@
    }

    /// Both tables have unique keys, every stored mask carries its
    /// correlations, every stored half is reduced, and a record only ever
    /// exists under an identifier whose masks exist and match its length.
    pub closed spec fn wf(&self) -> bool {
        &&& self.masks.wf()
        &&& self.secrets.wf()
        &&& forall|id: Seq<char>, j: int|
            self.masks@.contains_key(id) && 0 <= j < self.masks@[id]@.len() ==> mask_wf(
                #[trigger] self.masks@[id]@[j],
            )
        &&& forall|id: Seq<char>, j: int|
            self.secrets@.contains_key(id) && 0 <= j < self.secrets@[id]@.len() ==> (
            #[trigger] self.secrets@[id]@[j]).0 < P && self.secrets@[id]@[j].1 < P
        &&& forall|id: Seq<char>|
            #[trigger] self.secrets@.contains_key(id) ==> self.masks@.contains_key(id)
                && self.masks@[id]@.len() == self.secrets@[id]@.len()
    }

    /// Masks outside `id` are exactly what they were.
    pub open spec fn masks_unchanged_except(pre: &Self, post: &Self, id: Seq<char>) -> bool {
        &&& forall|q: Seq<char>|
            q != id ==> #[trigger] post.has_masks(q) == pre.has_masks(q)
        &&& forall|q: Seq<char>|
            q != id && pre.has_masks(q) ==> #[trigger] post.masks_for(q) == pre.masks_for(q)
    }

    /// Every mask entry is exactly what it was.
    pub open spec fn masks_unchanged(pre: &Self, post: &Self) -> bool {
        &&& forall|q: Seq<char>| #[trigger] post.has_masks(q) == pre.has_masks(q)
        &&& forall|q: Seq<char>| pre.has_masks(q) ==> #[trigger] post.masks_for(q) == pre.masks_for(q)
    }

    /// Every record is exactly what it was.
    pub open spec fn records_unchanged(pre: &Self, post: &Self) -> bool {
        &&& forall|q: Seq<char>| #[trigger] post.has_record(q) == pre.has_record(q)
        &&& forall|q: Seq<char>| pre.has_record(q) ==> #[trigger] post.record(q) == pre.record(q)
    }

    /// Records outside `id` are exactly what they were.
    pub open spec fn records_unchanged_except(pre: &Self, post: &Self, id: Seq<char>) -> bool {
        &&& forall|q: Seq<char>|
            q != id ==> #[trigger] post.has_record(q) == pre.has_record(q)
        &&& forall|q: Seq<char>|
            q != id && pre.has_record(q) ==> #[trigger] post.record(q) == pre.record(q)
    }

    /// An engine with empty stores.
    pub fn new() -> (e: SecretShareEngine)
        ensures
            e.wf(),
            forall|q: Seq<char>| !(#[trigger] e.has_masks(q)),
            forall|q: Seq<char>| !(#[trigger] e.has_record(q)),
    {
        SecretShareEngine { masks: Table::new(), secrets: Table::new() }
    }

    /// If the identifier is fresh, generate `count` independent random
    /// slots and cache them; if it is cached, return the cached slots
    /// unchanged.  Regenerating under a known identifier never happens:
    /// shares already computed against the old randomness would silently
    /// be corrupted.
    pub fn get_or_generate_masks(&mut self, id: &String, count: usize) -> (out: Vec<
        InputMasksObject,
    >)
        requires
            old(self).wf(),
        ensures
            final(self).wf(),
            old(self).has_masks(id@) ==> *final(self) == *old(self) && out@ == old(self).masks_for(
                id@,
            ),
            !old(self).has_masks(id@) ==> {
                &&& final(self).has_masks(id@)
                &&& out@ == final(self).masks_for(id@)
                &&& out@.len() == count
                &&& Self::masks_unchanged_except(old(self), final(self), id@)
                &&& Self::records_unchanged(old(self), final(self))
            },
            forall|j: int| 0 <= j < out@.len() ==> mask_wf(#[trigger] out@[j]),
    {
        if self.masks.contains(id) {
            let cached = match self.masks.get(id) {
                Some(v) => v,
                None => {
                    proof {
                        assert(false);
                    }
                    return Vec::new();
                },
            };
            copy_masks(cached)
        } else {
            let mut fresh: Vec<InputMasksObject> = Vec::new();
            let mut k: usize = 0;
            while k < count
                invariant
                    k <= count,
                    fresh@.len() == k,
                    forall|j: int| 0 <= j < k ==> mask_wf(#[trigger] fresh@[j]),
                decreases count - k,
            {
                fresh.push(InputMasksObject::generate());
                k = k + 1;
            }
            let stored = copy_masks(&fresh);
            proof {
                assert(!old(self).has_record(id@) || old(self).has_masks(id@));
            }
            self.masks.insert(id.clone(), stored);
            fresh
        }
    }

    /// Purge the record of a secret; absent identifiers are left alone.
    pub fn delete_secret(&mut self, secret_id: &String)
        requires
            old(self).wf(),
        ensures
            final(self).wf(),
            !final(self).has_record(secret_id@),
            Self::records_unchanged_except(old(self), final(self), secret_id@),
            Self::masks_unchanged(old(self), final(self)),
    {
        self.secrets.remove(secret_id);
    }

    /// This provider's stored share pairs for a secret, or nothing if no
    /// upload reached it yet.
    pub fn get_secrets_internal(&self, secret_id: &String) -> (out: Vec<(u128, u128)>)
        requires
            self.wf(),
        ensures
            self.has_record(secret_id@) ==> out@ == self.record(secret_id@),
            !self.has_record(secret_id@) ==> out@.len() == 0,
    {
        match self.secrets.get(secret_id) {
            Some(v) => copy_pairs(v),
            None => Vec::new(),
        }
    }
}

/// An element-wise copy; mask slots are plain words.
fn copy_masks(src: &Vec<InputMasksObject>) -> (out: Vec<InputMasksObject>)
    ensures
        out@ == src@,
{
    let mut out: Vec<InputMasksObject> = Vec::new();
    let mut j: usize = 0;
    while j < src.len()
        invariant
            j <= src@.len(),
            out@ == src@.take(j as int),
        decreases src@.len() - j,
    {
        let m = src[j];
        out.push(m);
        proof {
            assert(src@.take(j as int + 1) =~= src@.take(j as int).push(src@[j as int]));
        }
        j = j + 1;
    }
    proof {
        assert(src@.take(src@.len() as int) =~= src@);
    }
    out
}

/// An element-wise copy of share pairs.
fn copy_pairs(src: &Vec<(u128, u128)>) -> (out: Vec<(u128, u128)>)
    ensures
        out@ == src@,
{
    let mut out: Vec<(u128, u128)> = Vec::new();
    let mut j: usize = 0;
    while j < src.len()
        invariant
            j <= src@.len(),
            out@ == src@.take(j as int),
        decreases src@.len() - j,
    {
        let m = src[j];
        out.push(m);
        proof {
            assert(src@.take(j as int + 1) =~= src@.take(j as int).push(src@[j as int]));
        }
        j = j + 1;
    }
    proof {
        assert(src@.take(src@.len() as int) =~= src@);
    }
    out
}

/// Encode each value and concatenate the wire blocks.
fn pack_values(vals: &Vec<u128>) -> (out: Vec<u8>)
    ensures
        out@ == packed(vals@, R as int, P as int),
{
    let mut out: Vec<u8> = Vec::new();
    let mut j: usize = 0;
    while j < vals.len()
        invariant
            j <= vals@.len(),
            out@ == packed(vals@.take(j as int), R as int, P as int),
        decreases vals@.len() - j,
    {
        let mut block = to_gfp(vals[j], R, P);
        out.append(&mut block);
        proof {
            let t = vals@.take(j as int + 1);
            assert(t.drop_last() =~= vals@.take(j as int));
            assert(t.last() == vals@[j as int]);
        }
        j = j + 1;
    }
    proof {
        assert(vals@.take(vals@.len() as int) =~= vals@);
    }
    out
}

/// Pull one component's halves out of a mask list.
fn extract_component(masks: &Vec<InputMasksObject>, sel: u8, one: bool) -> (out: Vec<u128>)
    ensures
        out@ == component_halves(masks@, sel, one),
{
    let mut out: Vec<u128> = Vec::new();
    let mut j: usize = 0;
    while j < masks.len()
        invariant
            j <= masks@.len(),
            out@ == component_halves(masks@, sel, one).take(j as int),
        decreases masks@.len() - j,
    {
        let m = masks[j];
        let half = if sel == 0 {
            if one { m.secret.1 } else { m.secret.0 }
        } else if sel == 1 {
            if one { m.r.1 } else { m.r.0 }
        } else if sel == 2 {
            if one { m.v.1 } else { m.v.0 }
        } else if sel == 3 {
            if one { m.u.1 } else { m.u.0 }
        } else {
            if one { m.w.1 } else { m.w.0 }
        };
        out.push(half);
        proof {
            let hs = component_halves(masks@, sel, one);
            assert(hs.take(j as int + 1) =~= hs.take(j as int).push(hs[j as int]));
        }
        j = j + 1;
    }
    proof {
        let hs = component_halves(masks@, sel, one);
        assert(hs.take(hs.len() as int) =~= hs);
    }
    out
}

/// Pull one provider's halves out of a record.
fn extract_record_halves(rec: &Vec<(u128, u128)>, one: bool) -> (out: Vec<u128>)
    ensures
        out@ == record_halves(rec@, one),
{
    let mut out: Vec<u128> = Vec::new();
    let mut j: usize = 0;
    while j < rec.len()
        invariant
            j <= rec@.len(),
            out@ == record_halves(rec@, one).take(j as int),
        decreases rec@.len() - j,
    {
        let p = rec[j];
        out.push(if one { p.1 } else { p.0 });
        proof {
            let hs = record_halves(rec@, one);
            assert(hs.take(j as int + 1) =~= hs.take(j as int).push(hs[j as int]));
        }
        j = j + 1;
    }
    proof {
        let hs = record_halves(rec@, one);
        assert(hs.take(hs.len() as int) =~= hs);
    }
    out
}

impl SecretShareEngine {
    /// Serve one provider's bundle of input masks, generating the slots on
    /// first request and returning the cached ones bit-identically after.
    pub fn generate_input_masks(&mut self, vcp: i32, id: String, count: i32) -> (odo: OutputDeliveryObject)
        requires
            old(self).wf(),
        ensures
            final(self).wf(),
            old(self).has_masks(id@) ==> *final(self) == *old(self) && bundle_matches(
                odo,
                old(self).masks_for(id@),
                vcp > 0,
            ),
            !old(self).has_masks(id@) ==> {
                &&& final(self).has_masks(id@)
                &&& final(self).masks_for(id@).len() == if count > 0 { count as int } else { 0int }
                &&& bundle_matches(odo, final(self).masks_for(id@), vcp > 0)
                &&& Self::masks_unchanged_except(old(self), final(self), id@)
                &&& Self::records_unchanged(old(self), final(self))
            },
    {
        let cnt: usize = if count > 0 { count as usize } else { 0 };
        let masks = self.get_or_generate_masks(&id, cnt);
        let one = vcp > 0;
        OutputDeliveryObject {
            secret_shares: b64_encode(&pack_values(&extract_component(&masks, 0, one))),
            r_shares: b64_encode(&pack_values(&extract_component(&masks, 1, one))),
            v_shares: b64_encode(&pack_values(&extract_component(&masks, 2, one))),
            u_shares: b64_encode(&pack_values(&extract_component(&masks, 3, one))),
            w_shares: b64_encode(&pack_values(&extract_component(&masks, 4, one))),
        }
    }
}

/// The field elements encoded in a concatenation of wire blocks.
pub open spec fn blocks_vals(bytes: Seq<u8>, r_inv: int, p: int) -> Seq<int> {
    Seq::new((bytes.len() / 16) as nat, |j: int| (le_val(wire_block(bytes, j)) * r_inv) % p)
}

/// A blinded value decodes cleanly: canonical base64 of whole wire blocks.
pub open spec fn data_bytes_ok(d: DataObject) -> bool {
    &&& b64_bytes_of(d.value@) is Some
    &&& (b64_bytes_of(d.value@)->0).len() % 16 == 0
}

pub open spec fn data_ok(d: Seq<DataObject>) -> bool {
    forall|j: int| 0 <= j < d.len() ==> data_bytes_ok(#[trigger] d[j])
}

/// All blinded values of an upload, flattened in order.
pub open spec fn data_vals(d: Seq<DataObject>) -> Seq<int>
    decreases d.len(),
{
    if d.len() == 0 {
        Seq::empty()
    } else {
        data_vals(d.drop_last()) + blocks_vals(
            b64_bytes_of(d.last().value@)->0,
            R_INV as int,
            P as int,
        )
    }
}

/// This provider's half-share of one blinded value: half the blinded value
/// plus the secret mask half, with the parity of the blinded value added
/// back only by the designated odd provider.
pub open spec fn share_spec(b: int, s: int, odd: bool, p: int) -> int {
    ((b + 2 * s) / 2 + if odd { b % 2 } else { 0int }) % p
}

pub open spec fn vals_int(v: Seq<u128>) -> Seq<int> {
    v.map_values(|x: u128| x as int)
}

impl SecretShareEngine {
    /// Decode each blinded value, compute this provider's half-share, and
    /// write only this provider's side of the record, leaving the other
    /// provider's side untouched, so the two providers can upload in
    /// either order.
    #[verifier::loop_isolation(false)]
    pub fn add_secrets(&mut self, vcp: i32, secret_id: &String, data: &Vec<DataObject>) -> (res:
        Result<(), Error>)
        requires
            old(self).wf(),
        ensures
            final(self).wf(),
            res is Err ==> *final(self) == *old(self),
            !old(self).has_masks(secret_id@) ==> res == Err::<(), Error>(Error::MasksNotFound),
            old(self).has_masks(secret_id@) && !data_ok(data@) ==> res == Err::<(), Error>(
                Error::MalformedInput,
            ),
            old(self).has_masks(secret_id@) && data_ok(data@) && data_vals(data@).len()
                != old(self).masks_for(secret_id@).len() ==> res == Err::<(), Error>(
                Error::ShapeMismatch,
            ),
            res is Ok <==> old(self).has_masks(secret_id@) && data_ok(data@) && data_vals(
                data@,
            ).len() == old(self).masks_for(secret_id@).len(),
            res is Ok ==> {
                let vals = data_vals(data@);
                let ms = old(self).masks_for(secret_id@);
                let one = vcp > 0;
                &&& final(self).has_record(secret_id@)
                &&& final(self).record(secret_id@).len() == ms.len()
                &&& forall|j: int|
                    0 <= j < ms.len() ==> (#[trigger] final(self).record(secret_id@)[j]) == ({
                        let sh = share_spec(
                            vals[j],
                            component_half(ms[j], 0, one) as int,
                            one,
                            P as int,
                        );
                        let other = if old(self).has_record(secret_id@) {
                            if one {
                                old(self).record(secret_id@)[j].0
                            } else {
                                old(self).record(secret_id@)[j].1
                            }
                        } else {
                            0u128
                        };
                        if one {
                            (other, sh as u128)
                        } else {
                            (sh as u128, other)
                        }
                    })
                &&& Self::masks_unchanged(old(self), final(self))
                &&& Self::records_unchanged_except(old(self), final(self), secret_id@)
            },
    {
        let one = vcp > 0;
        let masks = match self.masks.get(secret_id) {
            Some(v) => copy_masks(v),
            None => {
                return Err(Error::MasksNotFound);
            },
        };
        // decode every blinded value into reduced field elements
        let mut vals: Vec<u128> = Vec::new();
        let mut j: usize = 0;
        proof {
            assert(vals_int(vals@) =~= data_vals(data@.take(0)));
        }
        while j < data.len()
            invariant
                self.wf(),
                *self == *old(self),
                j <= data@.len(),
                forall|t: int| 0 <= t < j ==> data_bytes_ok(#[trigger] data@[t]),
                vals_int(vals@) == data_vals(data@.take(j as int)),
                forall|t: int| 0 <= t < vals@.len() ==> (#[trigger] vals@[t]) < P,
            decreases data@.len() - j,
        {
            let d = &data[j];
            let bytes = match b64_decode(d.value.as_str()) {
                Ok(b) => b,
                Err(_) => {
                    return Err(Error::MalformedInput);
                },
            };
            let mut block_vals = match to_bigint_arr(&bytes, R_INV, P) {
                Ok(v) => v,
                Err(_) => {
                    return Err(Error::MalformedInput);
                },
            };
            proof {
                assert(vals_int(block_vals@) =~= blocks_vals(bytes@, R_INV as int, P as int));
            }
            let ghost vals0 = vals@;
            vals.append(&mut block_vals);
            proof {
                let t = data@.take(j as int + 1);
                assert(t.drop_last() =~= data@.take(j as int));
                assert(t.last() == data@[j as int]);
                assert(vals_int(vals@) =~= vals_int(vals0) + blocks_vals(
                    bytes@,
                    R_INV as int,
                    P as int,
                ));
            }
            j = j + 1;
        }
        proof {
            assert(data@.take(data@.len() as int) =~= data@);
        }
        if vals.len() != masks.len() {
            return Err(Error::ShapeMismatch);
        }
        // this provider's half-shares
        let mut shares: Vec<u128> = Vec::new();
        let mut k: usize = 0;
        while k < vals.len()
            invariant
                k <= vals@.len(),
                vals@.len() == masks@.len(),
                shares@.len() == k,
                forall|t: int| 0 <= t < vals@.len() ==> (#[trigger] vals@[t]) < P,
                forall|t: int| 0 <= t < masks@.len() ==> mask_wf(#[trigger] masks@[t]),
                forall|t: int|
                    0 <= t < k ==> (#[trigger] shares@[t]) as int == share_spec(
                        vals@[t] as int,
                        component_half(masks@[t], 0, one) as int,
                        one,
                        P as int,
                    ) && shares@[t] < P,
            decreases vals@.len() - k,
        {
            let b = vals[k];
            let m = masks[k];
            let s_half = if one { m.secret.1 } else { m.secret.0 };
            let t = add_mod(s_half, b / 2, P);
            let sh = if one { add_mod(t, b % 2, P) } else { t };
            proof {
                let bi = b as int;
                let si = s_half as int;
                lemma_hoist_over_denominator(bi, si, 2nat);
                assert(bi / 2 + si == (bi + si * 2) / 2);
                if one {
                    lemma_small_mod((bi % 2) as nat, P as nat);
                    lemma_add_mod_noop(si + bi / 2, bi % 2, P as int);
                }
            }
            shares.push(sh);
            k = k + 1;
        }
        // write only this provider's side of the record
        if self.secrets.contains(secret_id) {
            let existing = match self.secrets.get(secret_id) {
                Some(v) => copy_pairs(v),
                None => {
                    proof {
                        assert(false);
                    }
                    Vec::new()
                },
            };
            let mut updated: Vec<(u128, u128)> = Vec::new();
            let mut t: usize = 0;
            while t < existing.len()
                invariant
                    t <= existing@.len(),
                    existing@.len() == shares@.len(),
                    updated@.len() == t,
                    forall|q: int| 0 <= q < shares@.len() ==> (#[trigger] shares@[q]) < P,
                    forall|q: int|
                        0 <= q < existing@.len() ==> (#[trigger] existing@[q]).0 < P
                            && existing@[q].1 < P,
                    forall|q: int|
                        0 <= q < t ==> (#[trigger] updated@[q]) == (if one {
                            (existing@[q].0, shares@[q])
                        } else {
                            (shares@[q], existing@[q].1)
                        }),
                decreases existing@.len() - t,
            {
                let pair = existing[t];
                updated.push(if one { (pair.0, shares[t]) } else { (shares[t], pair.1) });
                t = t + 1;
            }
            self.secrets.set(secret_id, updated);
        } else {
            let mut fresh: Vec<(u128, u128)> = Vec::new();
            let mut t: usize = 0;
            while t < shares.len()
                invariant
                    t <= shares@.len(),
                    fresh@.len() == t,
                    forall|q: int| 0 <= q < shares@.len() ==> (#[trigger] shares@[q]) < P,
                    forall|q: int|
                        0 <= q < t ==> (#[trigger] fresh@[q]) == (if one {
                            (0u128, shares@[q])
                        } else {
                            (shares@[q], 0u128)
                        }),
                decreases shares@.len() - t,
            {
                fresh.push(if one { (0u128, shares[t]) } else { (shares[t], 0u128) });
                t = t + 1;
            }
            self.secrets.insert(secret_id.clone(), fresh);
        }
        Ok(())
    }

    /// Serve one provider's output bundle: its stored secret halves plus
    /// its halves of correlated randomness generated at most once per
    /// request identifier.  Without a record the bundle is all empty: the
    /// share is treated as not yet available rather than as an error.
    #[verifier::loop_isolation(false)]
    pub fn get_secret_share(&mut self, vcp: i32, secret_id: &String, request_id: &String) -> (odo:
        OutputDeliveryObject)
        requires
            old(self).wf(),
        ensures
            final(self).wf(),
            !old(self).has_record(secret_id@) ==> *final(self) == *old(self)
                && odo.secret_shares@ == Seq::<char>::empty() && odo.r_shares@ == Seq::<
                char,
            >::empty() && odo.v_shares@ == Seq::<char>::empty() && odo.w_shares@ == Seq::<
                char,
            >::empty() && odo.u_shares@ == Seq::<char>::empty(),
            old(self).has_record(secret_id@) ==> {
                let rec = old(self).record(secret_id@);
                let one = vcp > 0;
                let ms = final(self).masks_for(request_id@);
                &&& Self::records_unchanged(old(self), final(self))
                &&& Self::masks_unchanged_except(old(self), final(self), request_id@)
                &&& final(self).has_masks(request_id@)
                &&& old(self).has_masks(request_id@) ==> *final(self) == *old(self)
                &&& !old(self).has_masks(request_id@) ==> ms.len() == rec.len() && forall|j: int|
                    0 <= j < ms.len() ==> (#[trigger] ms[j]).secret == rec[j]
                &&& odo.secret_shares@ == b64_of(
                    packed(record_halves(rec, one), R as int, P as int),
                )
                &&& odo.r_shares@ == b64_of(packed(component_halves(ms, 1, one), R as int, P as int))
                &&& odo.v_shares@ == b64_of(packed(component_halves(ms, 2, one), R as int, P as int))
                &&& odo.u_shares@ == b64_of(packed(component_halves(ms, 3, one), R as int, P as int))
                &&& odo.w_shares@ == b64_of(packed(component_halves(ms, 4, one), R as int, P as int))
                &&& b64_bytes_of(odo.secret_shares@) == Some(
                    packed(record_halves(rec, one), R as int, P as int),
                )
                &&& b64_bytes_of(odo.r_shares@) == Some(
                    packed(component_halves(ms, 1, one), R as int, P as int),
                )
                &&& b64_bytes_of(odo.v_shares@) == Some(
                    packed(component_halves(ms, 2, one), R as int, P as int),
                )
                &&& b64_bytes_of(odo.u_shares@) == Some(
                    packed(component_halves(ms, 3, one), R as int, P as int),
                )
                &&& b64_bytes_of(odo.w_shares@) == Some(
                    packed(component_halves(ms, 4, one), R as int, P as int),
                )
            },
    {
        let one = vcp > 0;
        let rec = match self.secrets.get(secret_id) {
            Some(v) => copy_pairs(v),
            None => {
                return OutputDeliveryObject {
                    secret_shares: String::new(),
                    r_shares: String::new(),
                    v_shares: String::new(),
                    w_shares: String::new(),
                    u_shares: String::new(),
                };
            },
        };
        if !self.masks.contains(request_id) {
            let mut nm: Vec<InputMasksObject> = Vec::new();
            let mut j: usize = 0;
            while j < rec.len()
                invariant
                    j <= rec@.len(),
                    nm@.len() == j,
                    forall|q: int| 0 <= q < rec@.len() ==> (#[trigger] rec@[q]).0 < P && rec@[q].1 < P,
                    forall|q: int| 0 <= q < j ==> mask_wf(#[trigger] nm@[q]),
                    forall|q: int| 0 <= q < j ==> (#[trigger] nm@[q]).secret == rec@[q],
                decreases rec@.len() - j,
            {
                nm.push(InputMasksObject::generate_for(rec[j]));
                j = j + 1;
            }
            self.masks.insert(request_id.clone(), nm);
        }
        let masks = match self.masks.get(request_id) {
            Some(v) => copy_masks(v),
            None => {
                proof {
                    assert(false);
                }
                Vec::new()
            },
        };
        OutputDeliveryObject {
            secret_shares: b64_encode(&pack_values(&extract_record_halves(&rec, one))),
            r_shares: b64_encode(&pack_values(&extract_component(&masks, 1, one))),
            v_shares: b64_encode(&pack_values(&extract_component(&masks, 2, one))),
            u_shares: b64_encode(&pack_values(&extract_component(&masks, 3, one))),
            w_shares: b64_encode(&pack_values(&extract_component(&masks, 4, one))),
        }
    }
}

/// The field elements one provider's bundle text carries, if it decodes.
pub open spec fn row_vals(s: Seq<char>, r_inv: int, p: int) -> Option<Seq<int>> {
    match b64_bytes_of(s) {
        Option::Some(bytes) => if bytes.len() % 16 == 0 {
            Option::Some(blocks_vals(bytes, r_inv, p))
        } else {
            Option::None
        },
        Option::None => Option::None,
    }
}

/// Every provider's text decodes and all carry the same number of values.
pub open spec fn rows_ok(rows: Seq<Seq<char>>, r_inv: int, p: int) -> bool {
    &&& forall|i: int| 0 <= i < rows.len() ==> (#[trigger] row_vals(rows[i], r_inv, p)) is Some
    &&& forall|i: int|
        0 <= i < rows.len() ==> (#[trigger] row_vals(rows[i], r_inv, p))->0.len() == row_vals(
            rows[0],
            r_inv,
            p,
        )->0.len()
}

pub open spec fn rows_vals(rows: Seq<Seq<char>>, r_inv: int, p: int) -> Seq<Seq<int>> {
    Seq::new(rows.len(), |i: int| row_vals(rows[i], r_inv, p)->0)
}

pub open spec fn zipped_count(rows: Seq<Seq<char>>, r_inv: int, p: int) -> int {
    if rows.len() == 0 {
        0
    } else {
        row_vals(rows[0], r_inv, p)->0.len() as int
    }
}

/// The sum of one column across the providers' rows.
pub open spec fn col_sum(rows: Seq<Seq<int>>, j: int) -> int
    decreases rows.len(),
{
    if rows.len() == 0 {
        0
    } else {
        col_sum(rows.drop_last(), j) + rows.last()[j]
    }
}

pub open spec fn views_of(v: Seq<String>) -> Seq<Seq<char>> {
    v.map_values(|s: String| s@)
}

/// One reconstructed column list: as long as the first row, each entry the
/// column's sum across providers, reduced.
pub open spec fn sums_match(out: Seq<u128>, rows: Seq<Seq<char>>, r_inv: int, p: int) -> bool {
    &&& out.len() == zipped_count(rows, r_inv, p)
    &&& forall|j: int|
        0 <= j < out.len() ==> (#[trigger] out[j]) as int == col_sum(rows_vals(rows, r_inv, p), j)
            % p
}

/// Decode each provider's text and sum the columns modulo the prime.
#[verifier::loop_isolation(false)]
fn zipp_values(shares: &Vec<String>, r_inv: u128, prime: u128) -> (res: Result<Vec<u128>, Error>)
    requires
        prime > 0,
    ensures
        res is Ok <==> rows_ok(views_of(shares@), r_inv as int, prime as int),
        res matches Ok(v) ==> sums_match(v@, views_of(shares@), r_inv as int, prime as int),
{
    let ghost rows = views_of(shares@);
    let mut acc: Vec<u128> = Vec::new();
    let mut i: usize = 0;
    while i < shares.len()
        invariant
            i <= shares@.len(),
            forall|t: int| 0 <= t < i ==> (#[trigger] row_vals(rows[t], r_inv as int, prime as int)) is Some,
            i == 0 ==> acc@.len() == 0,
            i > 0 ==> acc@.len() == zipped_count(rows, r_inv as int, prime as int),
            forall|t: int|
                0 < t < i ==> (#[trigger] row_vals(rows[t], r_inv as int, prime as int))->0.len()
                    == zipped_count(rows, r_inv as int, prime as int),
            forall|q: int| 0 <= q < acc@.len() ==> (#[trigger] acc@[q]) < prime,
            forall|q: int|
                0 <= q < acc@.len() ==> (#[trigger] acc@[q]) as int == col_sum(
                    rows_vals(rows.take(i as int), r_inv as int, prime as int),
                    q,
                ) % (prime as int),
        decreases shares@.len() - i,
    {
        let bytes = match b64_decode(shares[i].as_str()) {
            Ok(b) => b,
            Err(_) => {
                return Err(Error::MalformedInput);
            },
        };
        let row = match to_bigint_arr(&bytes, r_inv, prime) {
            Ok(v) => v,
            Err(_) => {
                return Err(Error::MalformedInput);
            },
        };
        proof {
            assert(vals_int(row@) =~= row_vals(rows[i as int], r_inv as int, prime as int)->0);
        }
        if i == 0 {
            acc = row;
            proof {
                let rv = rows_vals(rows.take(1), r_inv as int, prime as int);
                assert forall|q: int| 0 <= q < acc@.len() implies (#[trigger] acc@[q]) as int
                    == col_sum(rv, q) % (prime as int) by {
                    assert(rv.drop_last() =~= Seq::<Seq<int>>::empty());
                    assert(rv.last() == row_vals(rows[0], r_inv as int, prime as int)->0);
                    assert(col_sum(Seq::<Seq<int>>::empty(), q) == 0);
                    assert(col_sum(rv, q) == col_sum(rv.drop_last(), q) + rv.last()[q]);
                    assert(vals_int(acc@)[q] == acc@[q] as int);
                    lemma_small_mod(acc@[q] as nat, prime as nat);
                }
            }
        } else {
            if row.len() != acc.len() {
                return Err(Error::ShapeMismatch);
            }
            let ghost acc0 = acc@;
            let mut q: usize = 0;
            while q < acc.len()
                invariant
                    acc@.len() == acc0.len(),
                    acc0.len() == row@.len(),
                    q <= acc@.len(),
                    forall|t: int| 0 <= t < acc0.len() ==> (#[trigger] acc0[t]) < prime,
                    forall|t: int| q <= t < acc@.len() ==> acc@[t] == acc0[t],
                    forall|t: int|
                        0 <= t < q ==> (#[trigger] acc@[t]) as int == (acc0[t] as int + row@[t] as int)
                            % (prime as int) && acc@[t] < prime,
                decreases acc@.len() - q,
            {
                proof {
                    assert(acc@[q as int] == acc0[q as int]);
                    assert(acc0[q as int] < prime);
                }
                let x = add_mod(acc[q], row[q], prime);
                acc[q] = x;
                q = q + 1;
            }
            proof {
                let rv1 = rows_vals(rows.take(i as int + 1), r_inv as int, prime as int);
                let rv0 = rows_vals(rows.take(i as int), r_inv as int, prime as int);
                assert(rv1.drop_last() =~= rv0);
                assert(rv1.last() == row_vals(rows[i as int], r_inv as int, prime as int)->0);
                assert forall|t: int| 0 <= t < acc@.len() implies (#[trigger] acc@[t]) as int
                    == col_sum(rv1, t) % (prime as int) by {
                    let s0 = col_sum(rv0, t);
                    let vt = row@[t] as int;
                    lemma_small_mod(vt as nat, prime as nat);
                    lemma_add_mod_noop(s0, vt, prime as int);
                }
            }
        }
        i = i + 1;
    }
    proof {
        assert(rows.take(rows.len() as int) =~= rows);
        if shares@.len() == 0 {
            assert(acc@.len() == 0);
        }
    }
    Ok(acc)
}

/// The output bundles of every provider, one component at a time.
pub open spec fn odo_component(odos: Seq<OutputDeliveryObject>, sel: u8) -> Seq<Seq<char>> {
    Seq::new(
        odos.len(),
        |i: int|
            if sel == 0 {
                odos[i].secret_shares@
            } else if sel == 1 {
                odos[i].r_shares@
            } else if sel == 2 {
                odos[i].v_shares@
            } else if sel == 3 {
                odos[i].u_shares@
            } else {
                odos[i].w_shares@
            },
    )
}

/// The reconstructed column sums of every bundle component.
#[derive(Debug, PartialEq, Eq)]
pub struct SharesDecoded {
    pub secrets: Vec<u128>,
    pub rs: Vec<u128>,
    pub us: Vec<u128>,
    pub vs: Vec<u128>,
    pub ws: Vec<u128>,
}

fn collect_component(shares: &Vec<OutputDeliveryObject>, sel: u8) -> (out: Vec<String>)
    ensures
        views_of(out@) == odo_component(shares@, sel),
{
    let mut out: Vec<String> = Vec::new();
    let mut i: usize = 0;
    while i < shares.len()
        invariant
            i <= shares@.len(),
            out@.len() == i,
            forall|t: int|
                0 <= t < i ==> (#[trigger] out@[t])@ == odo_component(shares@, sel)[t],
        decreases shares@.len() - i,
    {
        let o = &shares[i];
        let s = if sel == 0 {
            o.secret_shares.clone()
        } else if sel == 1 {
            o.r_shares.clone()
        } else if sel == 2 {
            o.v_shares.clone()
        } else if sel == 3 {
            o.u_shares.clone()
        } else {
            o.w_shares.clone()
        };
        out.push(s);
        i = i + 1;
    }
    proof {
        assert(views_of(out@) =~= odo_component(shares@, sel));
    }
    out
}

/// Sum every provider's bundle into cleartext columns: for each of the
/// five components, decode each provider's text and add the columns
/// modulo the prime.
pub fn zipp_shares(shares: &Vec<OutputDeliveryObject>, r_inv: u128, prime: u128) -> (res: Result<
    SharesDecoded,
    Error,
>)
    requires
        prime > 0,
    ensures
        res is Ok <==> {
            &&& rows_ok(odo_component(shares@, 0), r_inv as int, prime as int)
            &&& rows_ok(odo_component(shares@, 1), r_inv as int, prime as int)
            &&& rows_ok(odo_component(shares@, 2), r_inv as int, prime as int)
            &&& rows_ok(odo_component(shares@, 3), r_inv as int, prime as int)
            &&& rows_ok(odo_component(shares@, 4), r_inv as int, prime as int)
        },
        res matches Ok(sd) ==> {
            &&& sums_match(sd.secrets@, odo_component(shares@, 0), r_inv as int, prime as int)
            &&& sums_match(sd.rs@, odo_component(shares@, 1), r_inv as int, prime as int)
            &&& sums_match(sd.vs@, odo_component(shares@, 2), r_inv as int, prime as int)
            &&& sums_match(sd.us@, odo_component(shares@, 3), r_inv as int, prime as int)
            &&& sums_match(sd.ws@, odo_component(shares@, 4), r_inv as int, prime as int)
        },
{
    let secrets = match zipp_values(&collect_component(shares, 0), r_inv, prime) {
        Ok(v) => v,
        Err(e) => {
            return Err(e);
        },
    };
    let rs = match zipp_values(&collect_component(shares, 1), r_inv, prime) {
        Ok(v) => v,
        Err(e) => {
            return Err(e);
        },
    };
    let vs = match zipp_values(&collect_component(shares, 2), r_inv, prime) {
        Ok(v) => v,
        Err(e) => {
            return Err(e);
        },
    };
    let us = match zipp_values(&collect_component(shares, 3), r_inv, prime) {
        Ok(v) => v,
        Err(e) => {
            return Err(e);
        },
    };
    let ws = match zipp_values(&collect_component(shares, 4), r_inv, prime) {
        Ok(v) => v,
        Err(e) => {
            return Err(e);
        },
    };
    Ok(SharesDecoded { secrets, rs, us, vs, ws })
}

/// Sum the two providers' halves of each stored pair, reduced.
pub fn reconstruct_secrets(rec: &Vec<(u128, u128)>) -> (out: Vec<u128>)
    ensures
        out@.len() == rec@.len(),
        forall|j: int|
            0 <= j < rec@.len() ==> (#[trigger] out@[j]) as int == ((rec@[j].0 as int % (P as int))
                + (rec@[j].1 as int % (P as int))) % (P as int),
{
    let mut out: Vec<u128> = Vec::new();
    let mut j: usize = 0;
    while j < rec.len()
        invariant
            j <= rec@.len(),
            out@.len() == j,
            forall|q: int|
                0 <= q < j ==> (#[trigger] out@[q]) as int == ((rec@[q].0 as int % (P as int)) + (
                rec@[q].1 as int % (P as int))) % (P as int),
        decreases rec@.len() - j,
    {
        let p = rec[j];
        out.push(add_mod(p.0 % P, p.1 % P, P));
        j = j + 1;
    }
    out
}

/// A packed component decodes back to exactly its field elements: each
/// 16-byte wire block of the concatenation carries one value.
pub proof fn lemma_packed_decodes(vals: Seq<u128>, r: int, r_inv: int, p: int)
    requires
        0 < p <= crate::codec::pow256(16),
        (r * r_inv) % p == 1,
        forall|j: int| 0 <= j < vals.len() ==> (#[trigger] vals[j]) < p,
    ensures
        packed(vals, r, p).len() == 16 * vals.len(),
        blocks_vals(packed(vals, r, p), r_inv, p) == vals_int(vals),
    decreases vals.len(),
{
    if vals.len() == 0 {
        assert(packed(vals, r, p) =~= Seq::<u8>::empty());
        assert(blocks_vals(packed(vals, r, p), r_inv, p) =~= vals_int(vals));
    } else {
        let front = vals.drop_last();
        let v = vals.last();
        lemma_packed_decodes(front, r, r_inv, p);
        crate::codec::lemma_gfp_le_val(v as int, r, p);
        let bytes = packed(vals, r, p);
        let fbytes = packed(front, r, p);
        let block = gfp_of(v as int, r, p);
        assert(bytes == fbytes + block);
        assert(bytes.len() == 16 * vals.len());
        let n = vals.len() as int;
        assert forall|j: int| 0 <= j < n implies blocks_vals(bytes, r_inv, p)[j] == vals_int(
            vals,
        )[j] by {
            if j < n - 1 {
                assert(wire_block(bytes, j) =~= wire_block(fbytes, j));
                assert(blocks_vals(fbytes, r_inv, p)[j] == vals_int(front)[j]);
            } else {
                assert(wire_block(bytes, j) =~= block);
                assert(le_val(block) == (v as int * r) % p);
                crate::codec::lemma_codec_round_trip(v as int, r, r_inv, p);
            }
        }
        assert(blocks_vals(bytes, r_inv, p) =~= vals_int(vals));
    }
}

/// Additive reconstruction over one mask slot: whatever the two secret
/// halves of the slot are, a cleartext blinded with their sum and split by
/// the masked-input rule is recovered by summing the shares of both providers.
pub proof fn lemma_committed_value_recovered(m: InputMasksObject, x: int)
    requires
        mask_wf(m),
        0 <= x < P as int,
    ensures
        ({
            let b = (x - (m.secret.0 + m.secret.1)) % (P as int);
            (share_spec(b, m.secret.0 as int, false, P as int) + share_spec(
                b,
                m.secret.1 as int,
                true,
                P as int,
            )) % (P as int) == x
        }),
{
    lemma_additive_reconstruction(x, m.secret.0 as int, m.secret.1 as int, P as int);
}

/// Additive reconstruction: a cleartext blinded with the sum of both
/// secret-mask halves and then split by the masked-input rule is recovered
/// exactly by summing the two providers' half-shares modulo the prime,
/// whatever the two mask halves were.
pub proof fn lemma_additive_reconstruction(x: int, s0: int, s1: int, p: int)
    requires
        0 <= x < p,
        0 <= s0 < p,
        0 <= s1 < p,
        2 < p,
    ensures
        ({
            let b = (x - (s0 + s1)) % p;
            (share_spec(b, s0, false, p) + share_spec(b, s1, true, p)) % p == x
        }),
{
    let b = (x - (s0 + s1)) % p;
    lemma_hoist_over_denominator(b, s0, 2nat);
    lemma_hoist_over_denominator(b, s1, 2nat);
    assert(share_spec(b, s0, false, p) == (s0 + b / 2) % p);
    assert(share_spec(b, s1, true, p) == (s1 + b / 2 + b % 2) % p);
    lemma_fundamental_div_mod(b, 2);
    lemma_add_mod_noop(s0 + b / 2, s1 + b / 2 + b % 2, p);
    assert((s0 + b / 2) % p + (s1 + b / 2 + b % 2) % p == share_spec(b, s0, false, p)
        + share_spec(b, s1, true, p));
    assert(s0 + b / 2 + (s1 + b / 2 + b % 2) == s0 + s1 + b);
    lemma_add_mod_noop_right(s0 + s1, x - (s0 + s1), p);
    lemma_small_mod(x as nat, p as nat);
}

} // verus!
