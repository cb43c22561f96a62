//! What each operation gives for its arguments, whenever it is called.
//!
//! The laws here speak of a call by what it was handed and what it gave: `call_ensures` holds of
//! every call that was made, and `call_requires` of every call that may be made.

use std::collections::HashMap;

use ark_std::rand::rngs::StdRng;
use vstd::prelude::*;

use crate::backend::{draws_polynomial, draws_scalar, limbs_value, limbs_values};
use crate::curve::{logs, G1Point};
use crate::domain::EvaluationDomain;
use crate::error::Error;
use crate::handover::HandoverTranscript;
use crate::indices::{lemma_sum_eq, lemma_sum_insert, sum_over};
use crate::key_share::{BlindedKeyShare, PrivateKeyShare, ShareCommitment};
use crate::keypair::{Keypair, PublicKey};
use crate::laws::{
    law_handover_preserves_share, law_honest_handover_validates, law_unblind_restores,
};
use crate::modular::{lemma_cong_ops, lemma_cong_residue, lemma_residue, residue};
use crate::poly::eval;
use crate::refresh::{
    evaluate_commitments, make_random_polynomial_with_root, polynomial_with_root,
    prepare_share_updates_with_root, share_updates_for_polynomial, update_logs, ShareUpdate,
    SimpleShareInputs, UpdatableBlindedKeyShare, UpdateTranscript,
};
use crate::scalar::{random_polynomial, values, DomainPoint, Scalar};

verus! {

// ---------------------------------------------------------------------------------------------
// Share updates
// ---------------------------------------------------------------------------------------------

/// An update verifies exactly if it is its own commitment times the key of the validator; any
/// other is an invalid share update.
pub proof fn law_verify_decides(update: ShareUpdate, key: PublicKey, r: Result<bool, Error>)
    requires
        call_ensures(ShareUpdate::verify, (&update, &key), r),
    ensures
        r == Ok::<bool, Error>(true) <==> update.update@ == residue(
            update.commitment@ * key.encryption_key@,
        ),
        r == Ok::<bool, Error>(true) || r == Err::<bool, Error>(Error::InvalidShareUpdate),
{
}

// ---------------------------------------------------------------------------------------------
// Applying updates
// ---------------------------------------------------------------------------------------------

/// Updates can be applied where every producer dealt one for the index, and each is its own
/// commitment times the key that blinds the share.
pub proof fn law_valid_updates_can_be_applied(
    share: UpdatableBlindedKeyShare,
    transcripts: HashMap<u32, UpdateTranscript>,
    index: u32,
)
    requires
        forall|p: u32| #[trigger]
            transcripts@.dom().contains(p) ==> {
                &&& transcripts@[p].updates@.dom().contains(index)
                &&& transcripts@[p].updates@[index].update@ == residue(
                    transcripts@[p].updates@[index].commitment@ * share.0.validator_public_key@,
                )
            },
    ensures
        call_requires(
            UpdatableBlindedKeyShare::apply_share_updates,
            (&share, &transcripts, index),
        ),
{
}

/// Where updates may be applied, nothing is missing and nothing is forged: every producer dealt
/// an update for the index, and each is its own commitment times the key that blinds the share.
/// Conversely such updates are applied.
pub proof fn law_applied_updates_are_valid(
    share: UpdatableBlindedKeyShare,
    transcripts: HashMap<u32, UpdateTranscript>,
    index: u32,
    r: Option<UpdatableBlindedKeyShare>,
)
    requires
        call_ensures(
            UpdatableBlindedKeyShare::try_apply_share_updates,
            (&share, &transcripts, index),
            r,
        ),
    ensures
        r is Some <==> forall|p: u32| #[trigger]
            transcripts@.dom().contains(p) ==> {
                &&& transcripts@[p].updates@.dom().contains(index)
                &&& transcripts@[p].updates@[index].update@ == residue(
                    transcripts@[p].updates@[index].commitment@ * share.0.validator_public_key@,
                )
            },
{
}

/// Both ways to apply updates give the share plus all the updates, under the same key.
pub proof fn law_updates_add_up(
    share: UpdatableBlindedKeyShare,
    transcripts: HashMap<u32, UpdateTranscript>,
    index: u32,
    r: UpdatableBlindedKeyShare,
)
    requires
        call_ensures(
            UpdatableBlindedKeyShare::apply_share_updates,
            (&share, &transcripts, index),
            r,
        ) || call_ensures(
            UpdatableBlindedKeyShare::try_apply_share_updates,
            (&share, &transcripts, index),
            Some(r),
        ),
        transcripts@.dom().finite(),
    ensures
        r.0.validator_public_key == share.0.validator_public_key,
        r.0.blinded_key_share@ == residue(
            share.0.blinded_key_share@ + sum_over(
                transcripts@.dom(),
                |p: u32| transcripts@[p].updates@[index].update@,
            ),
        ),
{
    lemma_sum_eq(
        transcripts@.dom(),
        update_logs(transcripts@, index),
        |p: u32| transcripts@[p].updates@[index].update@,
    );
}

/// One more producer adds its own update, and no more than that.
pub proof fn law_one_more_producer(
    share: UpdatableBlindedKeyShare,
    transcripts: HashMap<u32, UpdateTranscript>,
    more: HashMap<u32, UpdateTranscript>,
    p: u32,
    index: u32,
    r: UpdatableBlindedKeyShare,
    s: UpdatableBlindedKeyShare,
)
    requires
        transcripts@.dom().finite(),
        !transcripts@.dom().contains(p),
        more@.dom() == transcripts@.dom().insert(p),
        forall|q: u32| #[trigger]
            transcripts@.dom().contains(q) ==> more@[q] == transcripts@[q],
        call_ensures(
            UpdatableBlindedKeyShare::try_apply_share_updates,
            (&share, &transcripts, index),
            Some(r),
        ),
        call_ensures(
            UpdatableBlindedKeyShare::try_apply_share_updates,
            (&share, &more, index),
            Some(s),
        ),
    ensures
        s.0.blinded_key_share@ == residue(
            r.0.blinded_key_share@ + more@[p].updates@[index].update@,
        ),
        s.0.validator_public_key == r.0.validator_public_key,
{
    let (f, g) = (update_logs(transcripts@, index), update_logs(more@, index));
    assert forall|q: u32| transcripts@.dom().contains(q) implies #[trigger] f(q) == g(q) by {
        assert(more@[q] == transcripts@[q]);
    }
    lemma_sum_eq(transcripts@.dom(), f, g);
    lemma_sum_insert(transcripts@.dom(), g, p);
    let partial = share.0.blinded_key_share@ + sum_over(transcripts@.dom(), f);
    lemma_cong_residue(partial);
    lemma_cong_ops(residue(partial), partial, g(p), g(p));
}

/// No producers, no change.
pub proof fn law_no_producers(
    share: UpdatableBlindedKeyShare,
    transcripts: HashMap<u32, UpdateTranscript>,
    index: u32,
    r: Option<UpdatableBlindedKeyShare>,
)
    requires
        call_ensures(
            UpdatableBlindedKeyShare::try_apply_share_updates,
            (&share, &transcripts, index),
            r,
        ),
        transcripts@.dom() == Set::<u32>::empty(),
    ensures
        r is Some,
        (r->0).0.blinded_key_share@ == share.0.blinded_key_share@,
        (r->0).0.validator_public_key == share.0.validator_public_key,
{
    share.0.blinded_key_share.lemma_range();
}

// ---------------------------------------------------------------------------------------------
// Judging transcripts
// ---------------------------------------------------------------------------------------------

/// When a transcript can be judged, and with what verdict. Every update is its own commitment
/// times the key of its validator. Each commitment within reach of the domain is the value, at
/// the domain element with the same index, of the committed polynomial, cut to the size of the
/// domain. If every index is within reach, the polynomial vanishes at the root, and the verdict
/// is `true`. If not, the verdict is an index out of reach.
pub proof fn law_transcript_is_judged(
    transcript: UpdateTranscript,
    keys: HashMap<u32, PublicKey>,
    domain: EvaluationDomain,
    root: Scalar,
    r: Option<Result<bool, Error>>,
)
    requires
        call_ensures(
            UpdateTranscript::try_verify_recovery,
            (&transcript, &keys, &domain, &root),
            r,
        ) || (root@ == 0 && call_ensures(
            UpdateTranscript::try_verify_refresh,
            (&transcript, &keys, &domain),
            r,
        )),
    ensures
        ({
            let updates = transcript.updates@;
            let c = logs(transcript.coeffs@);
            let n = domain@.len();
            let valid = forall|i: u32| #[trigger]
                updates.dom().contains(i) ==> keys@.dom().contains(i) && updates[i].update@
                    == residue(updates[i].commitment@ * keys@[i].encryption_key@);
            let matching = forall|i: u32| #[trigger]
                updates.dom().contains(i) && i < n ==> updates[i].commitment@ == residue(
                    eval(
                        if c.len() <= n {
                            c
                        } else {
                            c.take(n as int)
                        },
                        domain@[i as int],
                    ),
                );
            let within = forall|i: u32| #[trigger] updates.dom().contains(i) ==> i < n;
            let vanishing = c.len() > 0 && residue(eval(c, root@)) == 0;
            &&& r is Some <==> valid && matching && (within ==> vanishing)
            &&& r is Some && within ==> r == Some(Ok::<bool, Error>(true))
            &&& r is Some && !within ==> {
                &&& r matches Some(Err(Error::InvalidShareIndex(i)))
                &&& updates.dom().contains(i)
                &&& i >= n
            }
        }),
{
    lemma_residue(0);
    let c = logs(transcript.coeffs@);
    let n = domain@.len();
    if c.len() == n {
        assert(c.take(n as int) =~= c);
    }
}

/// Whether a transcript can be judged is found out exactly, and what can be judged may be
/// verified.
pub proof fn law_judgeable_transcripts_can_be_verified(
    transcript: UpdateTranscript,
    keys: HashMap<u32, PublicKey>,
    domain: EvaluationDomain,
    root: Scalar,
    r: bool,
)
    requires
        call_ensures(
            UpdateTranscript::is_judgeable,
            (&transcript, &keys, &domain, &root),
            r,
        ),
    ensures
        ({
            let updates = transcript.updates@;
            let c = logs(transcript.coeffs@);
            let n = domain@.len();
            let valid = forall|i: u32| #[trigger]
                updates.dom().contains(i) ==> keys@.dom().contains(i) && updates[i].update@
                    == residue(updates[i].commitment@ * keys@[i].encryption_key@);
            let matching = forall|i: u32| #[trigger]
                updates.dom().contains(i) && i < n ==> updates[i].commitment@ == residue(
                    eval(
                        if c.len() <= n {
                            c
                        } else {
                            c.take(n as int)
                        },
                        domain@[i as int],
                    ),
                );
            let within = forall|i: u32| #[trigger] updates.dom().contains(i) ==> i < n;
            let vanishing = c.len() > 0 && residue(eval(c, root@)) == 0;
            &&& r <==> valid && matching && (within ==> vanishing)
            &&& r ==> call_requires(
                UpdateTranscript::verify_recovery,
                (&transcript, &keys, &domain, &root),
            )
            &&& r && root@ == 0 ==> call_requires(
                UpdateTranscript::verify_refresh,
                (&transcript, &keys, &domain),
            )
        }),
{
    lemma_residue(0);
    let c = logs(transcript.coeffs@);
    let n = domain@.len();
    if c.len() == n {
        assert(c.take(n as int) =~= c);
    }
}

/// An index out of reach of the domain is an error of its own: where the updates are valid and
/// the commitments match as far as the domain reaches, a transcript with such an index can be
/// verified, whatever its polynomial, and what comes back is such an index.
pub proof fn law_index_out_of_reach_is_reported(
    transcript: UpdateTranscript,
    keys: HashMap<u32, PublicKey>,
    domain: EvaluationDomain,
    root: Scalar,
    outside: u32,
    r: Option<Result<bool, Error>>,
)
    requires
        transcript.updates@.dom().contains(outside),
        outside >= domain@.len(),
        ({
            let updates = transcript.updates@;
            let c = logs(transcript.coeffs@);
            let n = domain@.len();
            let valid = forall|i: u32| #[trigger]
                updates.dom().contains(i) ==> keys@.dom().contains(i) && updates[i].update@
                    == residue(updates[i].commitment@ * keys@[i].encryption_key@);
            let matching = forall|i: u32| #[trigger]
                updates.dom().contains(i) && i < n ==> updates[i].commitment@ == residue(
                    eval(
                        if c.len() <= n {
                            c
                        } else {
                            c.take(n as int)
                        },
                        domain@[i as int],
                    ),
                );
            valid && matching
        }),
        call_ensures(
            UpdateTranscript::try_verify_recovery,
            (&transcript, &keys, &domain, &root),
            r,
        ) || call_ensures(
            UpdateTranscript::try_verify_refresh,
            (&transcript, &keys, &domain),
            r,
        ),
    ensures
        call_requires(
            UpdateTranscript::verify_recovery,
            (&transcript, &keys, &domain, &root),
        ),
        call_requires(UpdateTranscript::verify_refresh, (&transcript, &keys, &domain)),
        r matches Some(Err(Error::InvalidShareIndex(i))) && transcript.updates@.dom().contains(i)
            && i >= domain@.len(),
{
    lemma_residue(0);
    let c = logs(transcript.coeffs@);
    let n = domain@.len();
    if c.len() == n {
        assert(c.take(n as int) =~= c);
    }
}

/// Verification tells an index out of reach from a transcript that is accepted.
pub proof fn law_verdicts(
    transcript: UpdateTranscript,
    keys: HashMap<u32, PublicKey>,
    domain: EvaluationDomain,
    root: Scalar,
    r: Result<bool, Error>,
)
    requires
        call_ensures(
            UpdateTranscript::verify_recovery,
            (&transcript, &keys, &domain, &root),
            r,
        ) || call_ensures(UpdateTranscript::verify_refresh, (&transcript, &keys, &domain), r),
    ensures
        r == Ok::<bool, Error>(true) <==> forall|i: u32| #[trigger]
            transcript.updates@.dom().contains(i) ==> i < domain@.len(),
        r == Ok::<bool, Error>(true) || (r matches Err(Error::InvalidShareIndex(i))
            && transcript.updates@.dom().contains(i) && i >= domain@.len()),
{
}

/// Whether the committed polynomial vanishes at a point. No commitments are no polynomial.
pub proof fn law_vanishes_at(transcript: UpdateTranscript, root: Scalar, r: bool)
    requires
        call_ensures(UpdateTranscript::vanishes_at, (&transcript, &root), r),
    ensures
        r <==> transcript.coeffs.len() > 0 && residue(eval(logs(transcript.coeffs@), root@)) == 0,
{
    lemma_residue(0);
}

/// A committed polynomial is evaluated in the exponent.
pub proof fn law_evaluate_commitments(coeffs: Vec<G1Point>, x: Scalar, r: G1Point)
    requires
        call_ensures(evaluate_commitments, (&coeffs, &x), r),
    ensures
        r@ == residue(eval(logs(coeffs@), x@)),
        coeffs.len() > 0 ==> call_requires(evaluate_commitments, (&coeffs, &x)),
{
}

// ---------------------------------------------------------------------------------------------
// Dealing
// ---------------------------------------------------------------------------------------------

/// Dealing a polynomial commits to each of its coefficients. To each validator, and to no one
/// else, it deals the value at the point of the validator: committed, and times its key.
pub proof fn law_dealing(
    points_and_keys: HashMap<u32, (DomainPoint, PublicKey)>,
    poly: Vec<Scalar>,
    r: UpdateTranscript,
)
    requires
        call_ensures(share_updates_for_polynomial, (&points_and_keys, &poly), r),
    ensures
        r.coeffs.len() == poly.len(),
        forall|j: int| 0 <= j < poly.len() ==> (#[trigger] r.coeffs[j])@ == poly[j]@,
        forall|i: u32| #[trigger]
            r.updates@.dom().contains(i) <==> points_and_keys@.dom().contains(i),
        forall|i: u32| #[trigger]
            points_and_keys@.dom().contains(i) ==> {
                let value = residue(eval(values(poly@), points_and_keys@[i].0@));
                &&& r.updates@[i].commitment@ == value
                &&& r.updates@[i].update@ == residue(
                    value * points_and_keys@[i].1.encryption_key@,
                )
            },
{
    assert(logs(r.coeffs@) == values(poly@));
    assert(logs(r.coeffs@).len() == values(poly@).len());
    assert forall|j: int| 0 <= j < poly.len() implies (#[trigger] r.coeffs[j])@ == poly[j]@ by {
        assert(logs(r.coeffs@)[j] == r.coeffs[j]@);
        assert(values(poly@)[j] == poly[j]@);
    }
}

/// Only the free term of a polynomial is replaced, and the result vanishes at the root.
pub proof fn law_polynomial_with_root(poly: Vec<Scalar>, root: DomainPoint, r: Vec<Scalar>)
    requires
        call_ensures(polynomial_with_root, (poly, &root), r),
    ensures
        r.len() == poly.len(),
        forall|j: int| 1 <= j < poly.len() ==> (#[trigger] r[j])@ == poly[j]@,
        residue(eval(values(r@), root@)) == 0,
        poly.len() > 0 ==> call_requires(polynomial_with_root, (poly, &root)),
{
    lemma_residue(0);
}

/// The coefficients that a random polynomial is made of are those that the generator yields.
pub proof fn law_random_polynomial(degree: u32, rng: &mut StdRng, r: Vec<Scalar>)
    requires
        degree < usize::MAX,
        call_ensures(random_polynomial, (degree, rng), r),
    ensures
        exists|m: &mut StdRng, drawn: Vec<[u64; 4]>|
            {
                &&& #[trigger] draws_polynomial(m, degree as usize, drawn)
                &&& *m == *old(rng)
                &&& *final(m) == *final(rng)
                &&& values(r@) == limbs_values(drawn@)
            },
        call_requires(random_polynomial, (degree, rng)),
{
}

/// A random polynomial with a root is the one that the generator yields, but for its free term:
/// of the given degree, from the state in which the generator is, and with one draw.
pub proof fn law_random_polynomial_with_root(
    degree: u32,
    root: DomainPoint,
    rng: &mut StdRng,
    r: Vec<Scalar>,
)
    requires
        degree < u32::MAX,
        call_ensures(make_random_polynomial_with_root, (degree, &root, rng), r),
    ensures
        exists|m: &mut StdRng, drawn: Vec<[u64; 4]>|
            {
                &&& #[trigger] draws_polynomial(m, degree as usize, drawn)
                &&& *m == *old(rng)
                &&& *final(m) == *final(rng)
                &&& values(r@).drop_first() == limbs_values(drawn@).drop_first()
            },
        r.len() == degree + 1,
        residue(eval(values(r@), root@)) == 0,
        call_requires(make_random_polynomial_with_root, (degree, &root, rng)),
{
    lemma_residue(0);
    assert forall|c: Seq<int>, first: int|
        c.len() > 0 implies (#[trigger] c.update(0, first)).drop_first() == c.drop_first() by {
        assert(c.update(0, first).drop_first() =~= c.drop_first());
    }
}

/// The update polynomial is the one that the generator yields, but for its free term: of degree
/// `threshold - 1`, from the state in which the generator is, and with one draw, whoever is
/// dealt to.
pub proof fn law_update_polynomial_is_drawn(
    points_and_keys: HashMap<u32, (DomainPoint, PublicKey)>,
    root: DomainPoint,
    threshold: u32,
    rng: &mut StdRng,
    r: UpdateTranscript,
)
    requires
        threshold >= 1,
        call_ensures(
            prepare_share_updates_with_root,
            (&points_and_keys, &root, threshold, rng),
            r,
        ),
    ensures
        exists|m: &mut StdRng, drawn: Vec<[u64; 4]>|
            {
                &&& #[trigger] draws_polynomial(m, (threshold - 1) as usize, drawn)
                &&& *m == *old(rng)
                &&& *final(m) == *final(rng)
                &&& logs(r.coeffs@).drop_first() == limbs_values(drawn@).drop_first()
            },
        r.coeffs.len() == threshold,
        residue(eval(logs(r.coeffs@), root@)) == 0,
        forall|i: u32| #[trigger]
            r.updates@.dom().contains(i) <==> points_and_keys@.dom().contains(i),
        forall|i: u32| #[trigger]
            points_and_keys@.dom().contains(i) ==> {
                let value = residue(eval(logs(r.coeffs@), points_and_keys@[i].0@));
                &&& r.updates@[i].commitment@ == value
                &&& r.updates@[i].update@ == residue(
                    value * points_and_keys@[i].1.encryption_key@,
                )
            },
        call_requires(
            prepare_share_updates_with_root,
            (&points_and_keys, &root, threshold, rng),
        ),
{
    lemma_residue(0);
    assert(logs(r.coeffs@).len() == r.coeffs.len());
    assert forall|c: Seq<int>, first: int|
        c.len() > 0 implies (#[trigger] c.update(0, first)).drop_first() == c.drop_first() by {
        assert(c.update(0, first).drop_first() =~= c.drop_first());
    }
}

/// The polynomial of a refresh is the one that the generator yields, with the free term set to
/// zero: of degree `threshold - 1`, from the state in which the generator is, and with one draw,
/// whoever is dealt to.
pub proof fn law_refresh_polynomial_is_drawn(
    points_and_keys: HashMap<u32, (DomainPoint, PublicKey)>,
    threshold: u32,
    rng: &mut StdRng,
    r: UpdateTranscript,
)
    requires
        threshold >= 1,
        call_ensures(
            UpdateTranscript::create_refresh_updates,
            (&points_and_keys, threshold, rng),
            r,
        ),
    ensures
        exists|m: &mut StdRng, drawn: Vec<[u64; 4]>|
            {
                &&& #[trigger] draws_polynomial(m, (threshold - 1) as usize, drawn)
                &&& *m == *old(rng)
                &&& *final(m) == *final(rng)
                &&& logs(r.coeffs@).drop_first() == limbs_values(drawn@).drop_first()
            },
        r.coeffs.len() == threshold,
        r.coeffs[0]@ == 0,
        forall|i: u32| #[trigger]
            r.updates@.dom().contains(i) <==> points_and_keys@.dom().contains(i),
        forall|i: u32| #[trigger]
            points_and_keys@.dom().contains(i) ==> {
                let value = residue(eval(logs(r.coeffs@), points_and_keys@[i].0@));
                &&& r.updates@[i].commitment@ == value
                &&& r.updates@[i].update@ == residue(
                    value * points_and_keys@[i].1.encryption_key@,
                )
            },
        call_requires(
            UpdateTranscript::create_refresh_updates,
            (&points_and_keys, threshold, rng),
        ),
{
    assert(logs(r.coeffs@).len() == r.coeffs.len());
    assert(logs(r.coeffs@)[0] == r.coeffs[0]@);
    assert forall|c: Seq<int>, first: int|
        c.len() > 0 implies (#[trigger] c.update(0, first)).drop_first() == c.drop_first() by {
        assert(c.update(0, first).drop_first() =~= c.drop_first());
    }
}

// ---------------------------------------------------------------------------------------------
// Handover
// ---------------------------------------------------------------------------------------------

/// A scalar drawn at random is the one that the generator yields, with one draw.
pub proof fn law_random_scalar_is_drawn(rng: &mut StdRng, r: Scalar)
    requires
        call_ensures(Scalar::random, (rng,), r),
    ensures
        exists|m: &mut StdRng, drawn: [u64; 4]|
            {
                &&& #[trigger] draws_scalar(m, drawn)
                &&& *m == *old(rng)
                &&& *final(m) == *final(rng)
                &&& r@ == limbs_value(drawn@)
            },
{
}

/// What a handover transcript holds: the share times the incoming key, the outgoing key times
/// the incoming key and the scalar, the scalar in both groups, and the index and the two keys.
pub proof fn law_handover_transcript(
    share_index: u32,
    share: BlindedKeyShare,
    outgoing: PublicKey,
    incoming: Keypair,
    t: Scalar,
    r: HandoverTranscript,
)
    requires
        call_ensures(
            HandoverTranscript::with_scalar,
            (share_index, &share, outgoing, &incoming, &t),
            r,
        ),
    ensures
        r.share_index == share_index,
        r.double_blind_share@ == residue(
            share.blinded_key_share@ * incoming.decryption_key@,
        ),
        r.commitment_to_share@ == residue(
            outgoing.encryption_key@ * (incoming.decryption_key@ * t@),
        ),
        r.commitment_to_g1@ == t@,
        r.commitment_to_g2@ == t@,
        r.incoming_pubkey.encryption_key@ == incoming.decryption_key@,
        r.outgoing_pubkey == outgoing,
{
}

/// A handover commits to the scalar that the generator yields, with one draw, whatever the other
/// arguments are.
pub proof fn law_handover_scalar_is_drawn(
    share_index: u32,
    share: BlindedKeyShare,
    outgoing: PublicKey,
    incoming: Keypair,
    rng: &mut StdRng,
    r: HandoverTranscript,
)
    requires
        call_ensures(
            HandoverTranscript::new,
            (share_index, &share, outgoing, &incoming, rng),
            r,
        ),
    ensures
        exists|m: &mut StdRng, drawn: [u64; 4]|
            {
                &&& #[trigger] draws_scalar(m, drawn)
                &&& *m == *old(rng)
                &&& *final(m) == *final(rng)
                &&& r.commitment_to_g1@ == limbs_value(drawn@)
            },
        r.commitment_to_g2@ == r.commitment_to_g1@,
        r.commitment_to_share@ == residue(
            outgoing.encryption_key@ * (incoming.decryption_key@ * r.commitment_to_g1@),
        ),
        r.double_blind_share@ == residue(
            share.blinded_key_share@ * incoming.decryption_key@,
        ),
        r.share_index == share_index,
        r.incoming_pubkey.encryption_key@ == incoming.decryption_key@,
        r.outgoing_pubkey == outgoing,
{
}

/// A transcript validates for a share commitment exactly if neither its commitment in G1 nor the
/// one to the share is the identity, both pairing equations hold, and so the two groups commit to
/// the same scalar; any other is an invalid share update.
pub proof fn law_validate_decides(
    transcript: HandoverTranscript,
    share_commitment: ShareCommitment,
    r: Result<bool, Error>,
)
    requires
        call_ensures(HandoverTranscript::validate, (&transcript, share_commitment), r),
    ensures
        r == Ok::<bool, Error>(true) <==> {
            &&& transcript.commitment_to_g1@ != 0
            &&& transcript.commitment_to_share@ != 0
            &&& residue(transcript.commitment_to_g1@ * transcript.double_blind_share@) == residue(
                share_commitment.0@ * transcript.commitment_to_share@,
            )
            &&& transcript.commitment_to_g2@ == transcript.commitment_to_g1@
        },
        r == Ok::<bool, Error>(true) || r == Err::<bool, Error>(Error::InvalidShareUpdate),
{
}

/// A valid transcript commits to one scalar, which is not zero, in both groups, at every share
/// index.
pub proof fn law_valid_commitments_agree(
    transcript: HandoverTranscript,
    share_commitment: ShareCommitment,
)
    requires
        transcript.is_valid(share_commitment),
    ensures
        transcript.commitment_to_g1@ == transcript.commitment_to_g2@,
        transcript.commitment_to_g1@ != 0,
        transcript.commitment_to_g2@ != 0,
        transcript.commitment_to_share@ != 0,
        residue(transcript.commitment_to_g1@ * transcript.double_blind_share@) == residue(
            share_commitment.0@ * transcript.commitment_to_share@,
        ),
{
}

/// The share index plays no part in the verdict.
pub proof fn law_validity_ignores_the_index(
    first: HandoverTranscript,
    second: HandoverTranscript,
    share_commitment: ShareCommitment,
)
    requires
        first.double_blind_share@ == second.double_blind_share@,
        first.commitment_to_share@ == second.commitment_to_share@,
        first.commitment_to_g1@ == second.commitment_to_g1@,
        first.commitment_to_g2@ == second.commitment_to_g2@,
    ensures
        first.is_valid(share_commitment) <==> second.is_valid(share_commitment),
{
}

/// A handover that was started with a scalar other than zero validates, at every share index,
/// against the commitment to the share, and can be finalized.
pub proof fn law_new_handover_validates(
    share_index: u32,
    share: BlindedKeyShare,
    outgoing: PublicKey,
    incoming: Keypair,
    rng: &mut StdRng,
    transcript: HandoverTranscript,
    share_commitment: ShareCommitment,
    r: Result<bool, Error>,
    departing: Keypair,
)
    requires
        call_ensures(
            HandoverTranscript::new,
            (share_index, &share, outgoing, &incoming, rng),
            transcript,
        ),
        transcript.commitment_to_g1@ != 0,
        outgoing.encryption_key@ != 0,
        incoming.decryption_key@ != 0,
        departing.decryption_key@ != 0,
        share.blinded_key_share@ == residue(share_commitment.0@ * outgoing.encryption_key@),
        call_ensures(HandoverTranscript::validate, (&transcript, share_commitment), r),
    ensures
        r == Ok::<bool, Error>(true),
        call_requires(HandoverTranscript::finalize, (&transcript, &departing, share_commitment)),
{
    let t = transcript.commitment_to_g1@;
    transcript.commitment_to_g1.lemma_range();
    outgoing.encryption_key.lemma_range();
    incoming.decryption_key.lemma_range();
    lemma_residue(0);
    assert(transcript.hands_over(share_index, share, outgoing, incoming, t));
    law_honest_handover_validates(
        transcript,
        share_index,
        share,
        outgoing,
        incoming,
        t,
        share_commitment,
    );
}

/// Whatever the share index, and whatever is handed over: unless the generator yields zero, a new
/// transcript validates against the commitment to the share, if neither key is zero.
pub proof fn law_drawn_handover_validates(
    share_index: u32,
    share: BlindedKeyShare,
    outgoing: PublicKey,
    incoming: Keypair,
    rng: &mut StdRng,
    transcript: HandoverTranscript,
    share_commitment: ShareCommitment,
    r: Result<bool, Error>,
)
    requires
        call_ensures(
            HandoverTranscript::new,
            (share_index, &share, outgoing, &incoming, rng),
            transcript,
        ),
        outgoing.encryption_key@ != 0,
        incoming.decryption_key@ != 0,
        share.blinded_key_share@ == residue(share_commitment.0@ * outgoing.encryption_key@),
        call_ensures(HandoverTranscript::validate, (&transcript, share_commitment), r),
    ensures
        exists|m: &mut StdRng, drawn: [u64; 4]|
            {
                &&& #[trigger] draws_scalar(m, drawn)
                &&& *m == *old(rng)
                &&& *final(m) == *final(rng)
                &&& r == Ok::<bool, Error>(true) <==> limbs_value(drawn@) != 0
            },
{
    law_handover_scalar_is_drawn(share_index, share, outgoing, incoming, rng, transcript);
    if transcript.commitment_to_g1@ != 0 {
        law_new_handover_validates(
            share_index,
            share,
            outgoing,
            incoming,
            rng,
            transcript,
            share_commitment,
            r,
            incoming,
        );
    }
}

/// Finalizing takes the departing key off the double-blind share, and puts the incoming key in
/// place of the departing one. It is done exactly where the transcript validates and the
/// departing key is not zero.
pub proof fn law_finalize(
    transcript: HandoverTranscript,
    departing: Keypair,
    share_commitment: ShareCommitment,
    r: Option<Result<BlindedKeyShare, Error>>,
)
    requires
        call_ensures(
            HandoverTranscript::try_finalize,
            (&transcript, &departing, share_commitment),
            r,
        ) || (r is Some && call_ensures(
            HandoverTranscript::finalize,
            (&transcript, &departing, share_commitment),
            r->0,
        )),
    ensures
        call_ensures(
            HandoverTranscript::try_finalize,
            (&transcript, &departing, share_commitment),
            r,
        ) ==> (r is Some <==> {
            &&& departing.decryption_key@ != 0
            &&& transcript.commitment_to_g1@ != 0
            &&& transcript.commitment_to_share@ != 0
            &&& residue(transcript.commitment_to_g1@ * transcript.double_blind_share@) == residue(
                share_commitment.0@ * transcript.commitment_to_share@,
            )
            &&& transcript.commitment_to_g2@ == transcript.commitment_to_g1@
        }),
        r is Some ==> {
            &&& r matches Some(Ok(share))
            &&& share.validator_public_key == transcript.incoming_pubkey.encryption_key
            &&& residue(share.blinded_key_share@ * departing.decryption_key@)
                == transcript.double_blind_share@
        },
{
}

/// A handover that is valid for the share commitment can be finalized with any key but zero.
pub proof fn law_valid_handover_can_be_finalized(
    transcript: HandoverTranscript,
    departing: Keypair,
    share_commitment: ShareCommitment,
)
    requires
        departing.decryption_key@ != 0,
        transcript.commitment_to_g1@ != 0,
        transcript.commitment_to_share@ != 0,
        residue(transcript.commitment_to_g1@ * transcript.double_blind_share@) == residue(
            share_commitment.0@ * transcript.commitment_to_share@,
        ),
        transcript.commitment_to_g2@ == transcript.commitment_to_g1@,
    ensures
        call_requires(HandoverTranscript::finalize, (&transcript, &departing, share_commitment)),
{
}

/// A handover from start to end: what the departing validator finalizes is, without the incoming
/// key, the share that was handed over.
pub proof fn law_handover_from_start_to_end(
    share_index: u32,
    share: BlindedKeyShare,
    departing: Keypair,
    outgoing: PublicKey,
    incoming: Keypair,
    rng: &mut StdRng,
    transcript: HandoverTranscript,
    share_commitment: ShareCommitment,
    finalized: BlindedKeyShare,
    before: PrivateKeyShare,
    after: PrivateKeyShare,
)
    requires
        call_ensures(
            HandoverTranscript::new,
            (share_index, &share, outgoing, &incoming, rng),
            transcript,
        ),
        call_ensures(
            HandoverTranscript::finalize,
            (&transcript, &departing, share_commitment),
            Ok(finalized),
        ),
        call_ensures(BlindedKeyShare::unblind, (&share, &departing), Some(before)),
        call_ensures(BlindedKeyShare::unblind, (&finalized, &incoming), Some(after)),
    ensures
        after.0@ == before.0@,
        finalized.validator_public_key@ == incoming.decryption_key@,
{
    departing.decryption_key.lemma_range();
    incoming.decryption_key.lemma_range();
    before.0.lemma_range();
    after.0.lemma_range();
    lemma_residue(0);
    assert(call_ensures(BlindedKeyShare::unblind, (&share, &departing), Some(before)));
    let t = transcript.commitment_to_g1@;
    assert(transcript.hands_over(share_index, share, outgoing, incoming, t));
    law_handover_preserves_share(
        transcript,
        share_index,
        share,
        departing,
        outgoing,
        incoming,
        t,
        before.0@,
        finalized,
        after,
    );
}

// ---------------------------------------------------------------------------------------------
// Shares and keys
// ---------------------------------------------------------------------------------------------

/// Unblinding undoes the blinding, and fails for the key zero alone.
pub proof fn law_unblind(share: BlindedKeyShare, keypair: Keypair, r: Option<PrivateKeyShare>)
    requires
        call_ensures(BlindedKeyShare::unblind, (&share, &keypair), r),
    ensures
        r is None <==> keypair.decryption_key@ == 0,
        forall|v: int|
            r is Some && share.blinded_key_share@ == #[trigger] residue(
                v * keypair.decryption_key@,
            ) ==> (r->0).0@ == residue(v),
{
    keypair.decryption_key.lemma_range();
    lemma_residue(0);
    assert forall|v: int|
        r is Some && share.blinded_key_share@ == #[trigger] residue(
            v * keypair.decryption_key@,
        ) implies (r->0).0@ == residue(v) by {
        (r->0).0.lemma_range();
        law_unblind_restores(r->0, v, keypair.decryption_key@);
    }
}

/// The inputs of a decryption share of the simple variant are the key and the share without it.
pub proof fn law_simple_share(
    share: UpdatableBlindedKeyShare,
    keypair: Keypair,
    r: SimpleShareInputs,
)
    requires
        call_ensures(
            UpdatableBlindedKeyShare::create_decryption_share_simple,
            (&share, &keypair),
            r,
        ),
    ensures
        r.validator_decryption_key == keypair.decryption_key,
        residue(r.private_key_share.0@ * keypair.decryption_key@) == share.0.blinded_key_share@,
        keypair.decryption_key@ != 0 ==> call_requires(
            UpdatableBlindedKeyShare::create_decryption_share_simple,
            (&share, &keypair),
        ),
{
}

/// The public key is the generator times the decryption key.
pub proof fn law_public_key(keypair: Keypair, r: PublicKey)
    requires
        call_ensures(Keypair::public_key, (&keypair,), r),
    ensures
        r.encryption_key@ == keypair.decryption_key@,
{
}

/// An updatable share is the share that it was made of.
pub proof fn law_updatable_share(share: BlindedKeyShare, r: UpdatableBlindedKeyShare)
    requires
        call_ensures(UpdatableBlindedKeyShare::new, (share,), r),
    ensures
        r.0 == share,
{
}

// ---------------------------------------------------------------------------------------------
// Calls that are always possible
// ---------------------------------------------------------------------------------------------

/// A handover can be started and validated, and its end can be tried, with any arguments.
pub proof fn law_handover_is_total(
    transcript: HandoverTranscript,
    share_index: u32,
    share: BlindedKeyShare,
    outgoing: PublicKey,
    keypair: Keypair,
    t: Scalar,
    rng: &mut StdRng,
    share_commitment: ShareCommitment,
)
    ensures
        call_requires(
            HandoverTranscript::new,
            (share_index, &share, outgoing, &keypair, rng),
        ),
        call_requires(
            HandoverTranscript::with_scalar,
            (share_index, &share, outgoing, &keypair, &t),
        ),
        call_requires(HandoverTranscript::validate, (&transcript, share_commitment)),
        call_requires(
            HandoverTranscript::try_finalize,
            (&transcript, &keypair, share_commitment),
        ),
        call_requires(BlindedKeyShare::unblind, (&share, &keypair)),
        call_requires(Scalar::random, (rng,)),
{
}

/// Updates can be verified, and applying and judging them can be tried, with any arguments.
pub proof fn law_refresh_is_total(
    update: ShareUpdate,
    key: PublicKey,
    share: UpdatableBlindedKeyShare,
    transcripts: HashMap<u32, UpdateTranscript>,
    index: u32,
    transcript: UpdateTranscript,
    keys: HashMap<u32, PublicKey>,
    domain: EvaluationDomain,
    root: Scalar,
    points_and_keys: HashMap<u32, (DomainPoint, PublicKey)>,
    poly: Vec<Scalar>,
)
    ensures
        call_requires(ShareUpdate::verify, (&update, &key)),
        call_requires(
            UpdatableBlindedKeyShare::try_apply_share_updates,
            (&share, &transcripts, index),
        ),
        call_requires(UpdateTranscript::is_judgeable, (&transcript, &keys, &domain, &root)),
        call_requires(
            UpdateTranscript::try_verify_recovery,
            (&transcript, &keys, &domain, &root),
        ),
        call_requires(UpdateTranscript::try_verify_refresh, (&transcript, &keys, &domain)),
        call_requires(UpdateTranscript::vanishes_at, (&transcript, &root)),
        call_requires(share_updates_for_polynomial, (&points_and_keys, &poly)),
{
}

} // verus!
