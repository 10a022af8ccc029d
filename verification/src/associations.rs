use vstd::prelude::*;
use std::collections::hash_map::DefaultHasher;
use std::hash::{Hash, Hasher};
use vstd::string::StringSliceAdditionalSpecFns;
use vstd::std_specs::hash::DefaultHasherAdditionalSpecFns;

use crate::registry::KeyRegistry;

verus! {

/// An association read from a class property, waiting for both of its
/// classes to exist in the scene.
#[derive(Debug, Clone)]
pub struct PendingAssociation {
    pub from_key: String,
    pub to_class_id: String,
    pub title: String,
}

/// An association whose classes were found, with the entities (as entity
/// bits) of the pieces drawn for it.
#[derive(Debug, Clone, Copy, PartialEq, Eq, Structural)]
pub struct ResolvedAssociation {
    pub from_ent: u64,
    pub to_ent: u64,
    pub assoc_beam_entity: u64,
    pub start_beam_entity: u64,
    pub start_sphere_entity: u64,
    pub end_beam_entity: u64,
    pub end_sphere_entity: u64,
    pub arrow_entity: u64,
    pub label_entity: u64,
    /// Which of the thousand depth steps the association is drawn at (see
    /// [`z_offset_step`]).
    pub z_offset_step: u16,
}

impl ResolvedAssociation {
    /// The six drawn pieces of the association that light up with it: both
    /// beams, both spheres, the connecting beam and the arrow (not the label).
    pub open spec fn visuals_spec(&self) -> Seq<u64> {
        seq![
            self.assoc_beam_entity,
            self.start_beam_entity,
            self.start_sphere_entity,
            self.end_beam_entity,
            self.end_sphere_entity,
            self.arrow_entity,
        ]
    }

    /// The six drawn pieces of the association, in the order of [`Self::visuals_spec`].
    pub fn all_visual_entities(&self) -> (v: [u64; 6])
        ensures
            v@ == self.visuals_spec(),
    {
        let v = [
            self.assoc_beam_entity,
            self.start_beam_entity,
            self.start_sphere_entity,
            self.end_beam_entity,
            self.end_sphere_entity,
            self.arrow_entity,
        ];
        assert(v@ =~= self.visuals_spec());
        v
    }

    /// The association touches entity `e` at one of its ends.
    pub open spec fn touches(&self, e: u64) -> bool {
        self.from_ent == e || self.to_ent == e
    }
}

/// The drawn pieces of every association among `assocs` that touches `e`,
/// in order.
pub open spec fn connected_visuals_spec(assocs: Seq<ResolvedAssociation>, e: u64) -> Seq<u64>
    decreases assocs.len(),
{
    if assocs.len() == 0 {
        Seq::empty()
    } else {
        let rest = connected_visuals_spec(assocs.drop_last(), e);
        if assocs.last().touches(e) {
            rest + assocs.last().visuals_spec()
        } else {
            rest
        }
    }
}

/// The drawn pieces of every association that touches `e`; these are
/// selected or highlighted together with `e`.
pub fn connected_visuals(assocs: &Vec<ResolvedAssociation>, e: u64) -> (out: Vec<u64>)
    ensures
        out@ == connected_visuals_spec(assocs@, e),
{
    let mut out: Vec<u64> = Vec::new();
    let mut k: usize = 0;
    assert(assocs@.subrange(0, 0) =~= Seq::<ResolvedAssociation>::empty());
    while k < assocs.len()
        invariant
            k <= assocs.len(),
            out@ == connected_visuals_spec(assocs@.subrange(0, k as int), e),
        decreases assocs.len() - k,
    {
        let ghost next = assocs@.subrange(0, k + 1);
        assert(next.drop_last() =~= assocs@.subrange(0, k as int));
        let a = &assocs[k];
        if a.from_ent == e || a.to_ent == e {
            let vis = a.all_visual_entities();
            let ghost before = out@;
            let mut j: usize = 0;
            while j < 6
                invariant
                    j <= 6,
                    vis@ == a.visuals_spec(),
                    out@ == before + vis@.subrange(0, j as int),
                decreases 6 - j,
            {
                out.push(vis[j]);
                assert(vis@.subrange(0, j + 1) =~= vis@.subrange(0, j as int).push(vis@[j as int]));
                j = j + 1;
            }
            assert(vis@.subrange(0, 6) =~= vis@);
        }
        k = k + 1;
    }
    assert(assocs@.subrange(0, assocs@.len() as int) =~= assocs@);
    out
}

/// Where a pending association's ends stand in the registry.
#[derive(Debug, Clone, Copy, PartialEq, Eq, Structural)]
pub enum AssociationEnds {
    /// Both classes are registered.
    Resolved { from_ent: u64, to_ent: u64 },
    /// The class that declares the association is not registered.
    MissingSource,
    /// The class the association points to is not registered.
    MissingTarget,
}

/// Looks up both ends of `pending`: first the declaring class, then the class
/// it points to.
pub fn resolve_ends(registry: &KeyRegistry, pending: &PendingAssociation) -> (ends: AssociationEnds)
    requires
        registry.0.wf(),
    ensures
        !registry.0@.dom().contains(pending.from_key@) ==> ends == AssociationEnds::MissingSource,
        registry.0@.dom().contains(pending.from_key@) && !registry.0@.dom().contains(
            pending.to_class_id@,
        ) ==> ends == AssociationEnds::MissingTarget,
        registry.0@.dom().contains(pending.from_key@) && registry.0@.dom().contains(
            pending.to_class_id@,
        ) ==> ends == (AssociationEnds::Resolved {
            from_ent: registry.0@[pending.from_key@],
            to_ent: registry.0@[pending.to_class_id@],
        }),
{
    match registry.0.get(pending.from_key.as_str()) {
        None => AssociationEnds::MissingSource,
        Some(from_ent) => match registry.0.get(pending.to_class_id.as_str()) {
            None => AssociationEnds::MissingTarget,
            Some(to_ent) => AssociationEnds::Resolved { from_ent, to_ent },
        },
    }
}

/// The FNV-1a offset basis for 64-bit hashes.
pub const FNV_OFFSET_BASIS: u64 = 0xcbf29ce484222325;

/// The FNV-1a prime for 64-bit hashes.
pub const FNV_PRIME: u64 = 0x100000001b3;

/// The 64-bit FNV-1a hash of `bytes`: start from the offset basis, and for
/// each byte xor it in, then multiply by the prime modulo 2^64.
pub open spec fn fnv1a_spec(bytes: Seq<u8>) -> u64
    decreases bytes.len(),
{
    if bytes.len() == 0 {
        FNV_OFFSET_BASIS
    } else {
        (((fnv1a_spec(bytes.drop_last()) ^ (bytes.last() as u64)) as nat * FNV_PRIME as nat)
            % 0x1_0000_0000_0000_0000) as u64
    }
}

/// The 64-bit FNV-1a hash of the UTF-8 bytes of `s`.
pub fn fnv1a(s: &str) -> (h: u64)
    ensures
        h == fnv1a_spec(s.spec_bytes()),
{
    let bytes = s.as_bytes();
    let mut hash: u64 = FNV_OFFSET_BASIS;
    let mut i: usize = 0;
    assert(bytes@.subrange(0, 0) =~= Seq::<u8>::empty());
    while i < bytes.len()
        invariant
            bytes@ == s.spec_bytes(),
            i <= bytes@.len(),
            hash == fnv1a_spec(bytes@.subrange(0, i as int)),
        decreases bytes.len() - i,
    {
        let ghost next = bytes@.subrange(0, i + 1);
        assert(next.drop_last() =~= bytes@.subrange(0, i as int));
        hash = hash ^ (bytes[i] as u64);
        hash = hash.wrapping_mul(FNV_PRIME);
        i = i + 1;
    }
    assert(bytes@.subrange(0, bytes@.len() as int) =~= bytes@);
    hash
}

/// Which of the thousand depth steps an association titled `title` is drawn
/// at: its FNV-1a hash modulo 1000. Step `p` stands for a depth offset of
/// `-1 - 3 * p / 1000`, so offsets fall in `(-4, -1]`.
pub fn z_offset_step(title: &str) -> (step: u16)
    ensures
        step as nat == fnv1a_spec(title.spec_bytes()) % 1000,
        step < 1000,
{
    let h = fnv1a(title);
    (h % 1000) as u16
}

/// Names the state a `DefaultHasher` reaches when a string is hashed into it,
/// from the state before and the string.
pub uninterp spec fn str_hash_state(prior: Seq<Seq<u8>>, text: Seq<char>) -> Seq<Seq<u8>>;

/// Calls `<str as Hash>::hash`, which feeds `text` into `state`. Claimed: the
/// state afterwards depends only on the state before and on `text`; what it
/// is, is left unsaid.
#[verifier::external_body]
fn hash_str_into(text: &str, state: &mut DefaultHasher)
    ensures
        final(state)@ == str_hash_state(old(state)@, text@),
{
    text.hash(state);
}

/// The hue (in whole degrees, below 360) for a hash value.
pub fn hue_from_hash(hash: u64) -> (hue: u16)
    ensures
        hue as nat == hash % 360,
        hue < 360,
{
    (hash % 360) as u16
}

/// The hue of the pastel colour of an association titled `title`: the
/// standard hasher's hash of the title, modulo 360.
pub fn pastel_hue(title: &str) -> (hue: u16)
    ensures
        hue as nat == DefaultHasher::spec_finish(
            str_hash_state(Seq::<Seq<u8>>::empty(), title@),
        ) % 360,
        hue < 360,
{
    let mut hasher = DefaultHasher::new();
    hash_str_into(title, &mut hasher);
    let hash = hasher.finish();
    hue_from_hash(hash)
}

} // verus!
