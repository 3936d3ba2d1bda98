//! Fiat–Shamir transcripts: a seed and the messages absorbed since, from which
//! challenges are drawn deterministically.
use vstd::prelude::*;
use crate::field::Fe;
use ark_bn254::Fr;
use ark_ff::PrimeField;
use ark_marlin::rng::FiatShamirRng;
use ark_std::UniformRand;
use blake2::Blake2s;

verus! {

/// The field element that a Blake2s Fiat–Shamir rng seeded with `seed`
/// draws first after absorbing `absorbed` in order.
pub uninterp spec fn fs_draw(seed: Seq<u8>, absorbed: Seq<Seq<u8>>) -> nat;

pub open spec fn byte_views(v: Seq<Vec<u8>>) -> Seq<Seq<u8>> {
    v.map_values(|m: Vec<u8>| m@)
}

/// Relies on ark-marlin's `FiatShamirRng::<Blake2s>` (`from_seed`, then
/// `absorb` of each message) and ark-ff's `UniformRand` for the BN254 scalar
/// field: the element drawn is a function of the seed and the messages.
#[verifier::external_body]
pub(crate) fn ark_fs_draw(seed: &Vec<u8>, absorbed: &Vec<Vec<u8>>) -> (r: Fe)
    ensures
        r@ == fs_draw(seed@, byte_views(absorbed@)),
{
    let mut rng = FiatShamirRng::<Blake2s>::from_seed(seed);
    for m in absorbed.iter() {
        rng.absorb(m);
    }
    Fe { limbs: Fr::rand(&mut rng).into_repr().0 }
}

/// A Fiat–Shamir transcript.
#[derive(Debug)]
pub struct Transcript {
    seed: Vec<u8>,
    absorbed: Vec<Vec<u8>>,
}

impl Transcript {
    pub closed spec fn spec_seed(&self) -> Seq<u8> {
        self.seed@
    }

    /// The messages absorbed so far, in order; each drawn challenge is
    /// followed by an empty message.
    pub closed spec fn spec_absorbed(&self) -> Seq<Seq<u8>> {
        byte_views(self.absorbed@)
    }

    pub fn from_seed(seed: &Vec<u8>) -> (r: Transcript)
        ensures
            r.spec_seed() == seed@,
            r.spec_absorbed() == Seq::<Seq<u8>>::empty(),
    {
        let r = Transcript { seed: seed.clone(), absorbed: Vec::new() };
        assert(byte_views(r.absorbed@) =~= Seq::<Seq<u8>>::empty());
        r
    }

    pub fn absorb(&mut self, msg: &Vec<u8>)
        ensures
            final(self).spec_seed() == old(self).spec_seed(),
            final(self).spec_absorbed() == old(self).spec_absorbed().push(msg@),
    {
        self.absorbed.push(msg.clone());
        assert(byte_views(self.absorbed@) =~= byte_views(old(self).absorbed@).push(msg@));
    }

    /// Draws a challenge from the seed and everything absorbed, then absorbs
    /// an empty message so that the next challenge is a fresh one.
    pub fn challenge(&mut self) -> (r: Fe)
        ensures
            r@ == fs_draw(old(self).spec_seed(), old(self).spec_absorbed()),
            final(self).spec_seed() == old(self).spec_seed(),
            final(self).spec_absorbed() == old(self).spec_absorbed().push(Seq::<u8>::empty()),
    {
        let r = ark_fs_draw(&self.seed, &self.absorbed);
        self.absorb(&Vec::new());
        r
    }
}

/// Two transcripts with the same seed that absorbed the same messages draw
/// the same challenge.
pub proof fn lemma_fs_deterministic(a: Transcript, b: Transcript)
    requires
        a.spec_seed() == b.spec_seed(),
        a.spec_absorbed() == b.spec_absorbed(),
    ensures
        fs_draw(a.spec_seed(), a.spec_absorbed()) == fs_draw(b.spec_seed(), b.spec_absorbed()),
{
}

} // verus!
