//! What holds of refresh and handover as a whole.

use vstd::prelude::*;

use crate::backend::{kept, value_on_domain};
use crate::curve::{logs, G1Point};
use crate::domain::{is_domain, lemma_points_distinct};
use crate::handover::HandoverTranscript;
use crate::indices::{
    in_order, lemma_in_order_lists, lemma_sum_cong, lemma_sum_eq, lemma_sum_prefix,
    lemma_sum_union, sum_over,
};
use crate::interpolation::{
    combination, evals, lemma_basis_product_unit, lemma_interpolation,
};
use crate::key_share::{BlindedKeyShare, PrivateKeyShare, ShareCommitment};
use crate::keypair::{Keypair, PublicKey};
use crate::modular::{
    cong, lemma_cong_ops, lemma_cong_residue, lemma_residue, order, residue,
};
use crate::number_theory::lemma_pigeonhole;
use crate::poly::{
    all_distinct, basis_product, eval, is_basis_value, lemma_eval_sum, poly_sum,
};
use crate::primality::{lemma_cancel_factor, lemma_zero_product};
use crate::refresh::{
    points_in_order, update_logs, updates_apply, PointsAndKeys, PrecomputedShareInputs,
    UpdateTranscript,
};
use crate::scalar::DomainPoint;

verus! {

// ---------------------------------------------------------------------------------------------
// Evaluation domains
// ---------------------------------------------------------------------------------------------

/// The elements of an evaluation domain are distinct.
pub proof fn law_domain_points_distinct(domain: Seq<int>, i: int, j: int)
    requires
        is_domain(domain),
        0 <= i < j < domain.len(),
    ensures
        !cong(domain[i], domain[j]),
{
    lemma_points_distinct(domain, i, j);
}

// ---------------------------------------------------------------------------------------------
// Update transcripts
// ---------------------------------------------------------------------------------------------

/// The points of the validators are the elements of the domain with their share indices.
pub open spec fn points_on_domain(points_and_keys: PointsAndKeys, domain: Seq<int>) -> bool {
    forall|i: u32| #[trigger]
        points_and_keys.dom().contains(i) ==> i < domain.len() && points_and_keys[i].0@
            == domain[i as int]
}

/// Each validator has the same key in both maps.
pub open spec fn keys_agree(
    points_and_keys: PointsAndKeys,
    keys: Map<u32, PublicKey>,
) -> bool {
    forall|i: u32| #[trigger]
        points_and_keys.dom().contains(i) ==> keys.dom().contains(i) && keys[i]
            == points_and_keys[i].1
}

/// An honest transcript verifies: what deals a polynomial with the given root, at the elements
/// of the domain, is accepted, provided that the polynomial has no more coefficients than the
/// domain has elements.
pub proof fn law_honest_transcript_verifies(
    transcript: UpdateTranscript,
    c: Seq<int>,
    points_and_keys: PointsAndKeys,
    keys: Map<u32, PublicKey>,
    domain: Seq<int>,
    root: int,
)
    requires
        transcript.deals(c, points_and_keys),
        points_on_domain(points_and_keys, domain),
        keys_agree(points_and_keys, keys),
        0 < c.len() <= domain.len(),
        cong(eval(c, root), 0),
    ensures
        transcript.can_be_judged(keys, domain, root),
        transcript.indices_within(domain),
{
    assert(kept(c, domain.len()) =~= c);
    assert forall|i: u32| #[trigger]
        transcript.updates@.dom().contains(i) && i < domain.len() implies transcript.updates@[i].commitment@
        == residue(value_on_domain(logs(transcript.coeffs@), domain, i as int)) by {
        assert(points_and_keys.dom().contains(i));
    }
    assert forall|i: u32| #[trigger] transcript.updates@.dom().contains(i) implies keys.dom().contains(
        i,
    ) && transcript.updates@[i].is_valid(keys[i]) && i < domain.len() by {
        assert(points_and_keys.dom().contains(i));
    }
    assert(transcript.coeffs@.len() == logs(transcript.coeffs@).len());
}

/// What a validator is dealt depends on the polynomial, its point and its key alone: two
/// transcripts of one polynomial agree in their commitments, and in the updates for a validator
/// with the same point and key in both, whoever else is dealt to.
pub proof fn law_transcripts_of_one_polynomial_agree(
    first: UpdateTranscript,
    second: UpdateTranscript,
    c: Seq<int>,
    first_points_and_keys: PointsAndKeys,
    second_points_and_keys: PointsAndKeys,
    i: u32,
)
    requires
        first.deals(c, first_points_and_keys),
        second.deals(c, second_points_and_keys),
        first_points_and_keys.dom().contains(i),
        second_points_and_keys.dom().contains(i),
        first_points_and_keys[i].0@ == second_points_and_keys[i].0@,
        first_points_and_keys[i].1.encryption_key@ == second_points_and_keys[i].1.encryption_key@,
    ensures
        logs(first.coeffs@) == logs(second.coeffs@),
        first.updates@[i].update@ == second.updates@[i].update@,
        first.updates@[i].commitment@ == second.updates@[i].commitment@,
{
}

/// A transcript is accepted for a root: it can be judged, and the verdict is `Ok(true)`.
pub open spec fn accepted(
    transcript: UpdateTranscript,
    keys: Map<u32, PublicKey>,
    domain: Seq<int>,
    root: int,
) -> bool {
    transcript.can_be_judged(keys, domain, root) && transcript.indices_within(domain)
}

/// What an accepted transcript deals: each validator is dealt, at its domain element, the one
/// polynomial that is committed to, and this polynomial vanishes at the root. A polynomial with
/// more coefficients than the domain has elements is cut to that number.
pub proof fn law_accepted_transcript_deals(
    transcript: UpdateTranscript,
    keys: Map<u32, PublicKey>,
    domain: Seq<int>,
    root: int,
    i: u32,
)
    requires
        accepted(transcript, keys, domain, root),
        transcript.updates@.dom().contains(i),
    ensures
        transcript.updates@[i].commitment@ == residue(
            eval(kept(logs(transcript.coeffs@), domain.len()), domain[i as int]),
        ),
        transcript.updates@[i].is_valid(keys[i]),
        transcript.coeffs.len() <= domain.len() ==> transcript.deals_to(
            i,
            domain[i as int],
            keys[i],
        ),
        cong(eval(logs(transcript.coeffs@), root), 0),
{
    let c = logs(transcript.coeffs@);
    if transcript.coeffs.len() <= domain.len() {
        assert(kept(c, domain.len()) =~= c);
    }
}

// ---------------------------------------------------------------------------------------------
// Updated shares
// ---------------------------------------------------------------------------------------------

/// Every transcript deals to the holder of the given key, whose point is `x`.
pub open spec fn all_deal(
    transcripts: Map<u32, UpdateTranscript>,
    index: u32,
    x: int,
    public_key: PublicKey,
) -> bool {
    forall|p: u32| #[trigger]
        transcripts.dom().contains(p) ==> transcripts[p].deals_to(index, x, public_key)
}

/// The value at `x` of the polynomial that each producer committed to.
pub open spec fn dealt_values(transcripts: Map<u32, UpdateTranscript>, x: int) -> spec_fn(
    u32,
) -> int {
    |p: u32| eval(logs(transcripts[p].coeffs@), x)
}

/// Transcripts that deal to a validator can be applied by it.
pub proof fn law_dealt_updates_apply(
    transcripts: Map<u32, UpdateTranscript>,
    index: u32,
    x: int,
    public_key: PublicKey,
)
    requires
        all_deal(transcripts, index, x, public_key),
    ensures
        updates_apply(transcripts, index, public_key),
{
}

/// A sum of multiples is a multiple of the sum.
proof fn lemma_sum_scaled(keys: Set<u32>, f: spec_fn(u32) -> int, k: int)
    requires
        keys.finite(),
    ensures
        sum_over(keys, |p: u32| f(p) * k) == sum_over(keys, f) * k,
    decreases keys.len(),
{
    if keys.len() > 0 {
        let p = keys.choose();
        let rest = keys.remove(p);
        lemma_sum_scaled(rest, f, k);
        assert((f(p) + sum_over(rest, f)) * k == f(p) * k + sum_over(rest, f) * k)
            by (nonlinear_arith);
    } else {
        assert(0 * k == 0);
    }
}

/// Applying transcripts adds to the private share the values that they deal: where the share
/// was `v` before, it is `v` plus these values, under the same key.
pub proof fn law_updated_share(
    v: int,
    transcripts: Map<u32, UpdateTranscript>,
    index: u32,
    x: int,
    public_key: PublicKey,
    before: BlindedKeyShare,
    after: BlindedKeyShare,
)
    requires
        transcripts.dom().finite(),
        all_deal(transcripts, index, x, public_key),
        before.blinded_key_share@ == residue(v * public_key.encryption_key@),
        after.blinded_key_share@ == residue(
            before.blinded_key_share@ + sum_over(
                transcripts.dom(),
                update_logs(transcripts, index),
            ),
        ),
    ensures
        after.blinded_key_share@ == residue(
            (v + sum_over(transcripts.dom(), dealt_values(transcripts, x)))
                * public_key.encryption_key@,
        ),
{
    let dom = transcripts.dom();
    let k = public_key.encryption_key@;
    let f = update_logs(transcripts, index);
    let g = dealt_values(transcripts, x);
    let h = |p: u32| g(p) * k;
    assert forall|p: u32| dom.contains(p) implies cong(#[trigger] f(p), h(p)) by {
        assert(transcripts[p].deals_to(index, x, public_key));
        lemma_cong_residue(g(p));
        lemma_cong_ops(residue(g(p)), g(p), k, k);
        lemma_cong_residue(residue(g(p)) * k);
    }
    lemma_sum_cong(dom, f, h);
    lemma_sum_scaled(dom, g, k);
    lemma_cong_residue(v * k);
    lemma_cong_ops(residue(v * k), v * k, sum_over(dom, f), sum_over(dom, g) * k);
    assert((v + sum_over(dom, g)) * k == v * k + sum_over(dom, g) * k) by (nonlinear_arith);
}

/// Taking the key off a blinded share gives back what was blinded.
pub proof fn law_unblind_restores(share: PrivateKeyShare, v: int, decryption_key: int)
    requires
        !cong(decryption_key, 0),
        residue(share.0@ * decryption_key) == residue(v * decryption_key),
    ensures
        cong(share.0@, v),
{
    lemma_cancel_factor(decryption_key, share.0@, v);
}

/// The sum of a polynomial for each member of a finite set.
spec fn poly_sum_over(keys: Set<u32>, c: spec_fn(u32) -> Seq<int>) -> Seq<int>
    decreases keys.len(),
{
    if keys.finite() && keys.len() > 0 {
        let k = keys.choose();
        poly_sum(c(k), poly_sum_over(keys.remove(k), c))
    } else {
        Seq::empty()
    }
}

proof fn lemma_poly_sum_over(keys: Set<u32>, c: spec_fn(u32) -> Seq<int>, n: nat, x: int)
    requires
        keys.finite(),
        forall|k: u32| keys.contains(k) ==> (#[trigger] c(k)).len() <= n,
    ensures
        eval(poly_sum_over(keys, c), x) == sum_over(keys, |k: u32| eval(c(k), x)),
        poly_sum_over(keys, c).len() <= n,
    decreases keys.len(),
{
    if keys.len() > 0 {
        let k = keys.choose();
        let rest = keys.remove(k);
        lemma_poly_sum_over(rest, c, n, x);
        lemma_eval_sum(c(k), poly_sum_over(rest, c), x);
        assert(c(k).len() <= n);
    }
}

/// The points of the participants in a domain.
pub open spec fn points_of(domain: Seq<int>, participants: Seq<u32>) -> Seq<int> {
    Seq::new(participants.len(), |j: int| domain[participants[j] as int])
}

/// The logarithms of private key shares.
pub open spec fn share_logs(shares: Seq<PrivateKeyShare>) -> Seq<int> {
    Seq::new(shares.len(), |j: int| shares[j].0@)
}

/// The points of distinct participants are distinct.
pub proof fn law_points_distinct(domain: Seq<int>, participants: Seq<u32>)
    requires
        is_domain(domain),
        participants.no_duplicates(),
        forall|j: int| 0 <= j < participants.len() ==> (#[trigger] participants[j]) < domain.len(),
    ensures
        all_distinct(points_of(domain, participants)),
{
    let xs = points_of(domain, participants);
    assert forall|i: int, j: int| 0 <= i < j < xs.len() implies !cong(
        #[trigger] xs[i],
        #[trigger] xs[j],
    ) by {
        let (a, b) = (participants[i] as int, participants[j] as int);
        assert(a != b);
        if a < b {
            law_domain_points_distinct(domain, a, b);
        } else {
            law_domain_points_distinct(domain, b, a);
        }
    }
}

/// The course of an update among participants at the points `xs`. Before it, the share of each
/// is the value of the polynomial `h` at its point, blinded by its key. The participants apply
/// transcripts that deal to each of them polynomials with the given root, take their keys off
/// again, and are given the Lagrange coefficients at the root. Neither `h` nor any of the update
/// polynomials has more coefficients than there are participants.
pub open spec fn is_update(
    h: Seq<int>,
    transcripts: Map<u32, UpdateTranscript>,
    root: int,
    participants: Seq<u32>,
    xs: Seq<int>,
    keys: Seq<PublicKey>,
    before: Seq<BlindedKeyShare>,
    after: Seq<BlindedKeyShare>,
    shares: Seq<PrivateKeyShare>,
    coeffs: Seq<int>,
) -> bool {
    &&& transcripts.dom().finite()
    &&& all_distinct(xs)
    &&& participants.len() == xs.len()
    &&& keys.len() == xs.len()
    &&& before.len() == xs.len()
    &&& after.len() == xs.len()
    &&& shares.len() == xs.len()
    &&& coeffs.len() == xs.len()
    &&& h.len() <= xs.len()
    &&& forall|p: u32| #[trigger]
        transcripts.dom().contains(p) ==> {
            &&& transcripts[p].coeffs.len() <= xs.len()
            &&& cong(eval(logs(transcripts[p].coeffs@), root), 0)
        }
    &&& forall|j: int|
        0 <= j < xs.len() ==> {
            let key = keys[j].encryption_key@;
            &&& !cong(key, 0)
            &&& all_deal(transcripts, participants[j], #[trigger] xs[j], keys[j])
            &&& before[j].blinded_key_share@ == residue(eval(h, xs[j]) * key)
            &&& after[j].blinded_key_share@ == residue(
                before[j].blinded_key_share@ + sum_over(
                    transcripts.dom(),
                    update_logs(transcripts, participants[j]),
                ),
            )
            &&& residue(shares[j].0@ * key) == after[j].blinded_key_share@
            &&& is_basis_value(coeffs[j], xs, j, root)
        }
}

/// An update preserves the value at its root: the updated shares combine, at the root of the
/// update polynomials, to the value there of the polynomial that was shared before.
pub proof fn law_update_preserves_value_at_root(
    h: Seq<int>,
    transcripts: Map<u32, UpdateTranscript>,
    root: int,
    participants: Seq<u32>,
    xs: Seq<int>,
    keys: Seq<PublicKey>,
    before: Seq<BlindedKeyShare>,
    after: Seq<BlindedKeyShare>,
    shares: Seq<PrivateKeyShare>,
    coeffs: Seq<int>,
)
    requires
        is_update(
            h,
            transcripts,
            root,
            participants,
            xs,
            keys,
            before,
            after,
            shares,
            coeffs,
        ),
    ensures
        cong(combination(coeffs, share_logs(shares)), eval(h, root)),
{
    let n = xs.len();
    let dom = transcripts.dom();
    let c = |p: u32| logs(transcripts[p].coeffs@);
    let updates = poly_sum_over(dom, c);
    let total = poly_sum(h, updates);
    assert forall|p: u32| dom.contains(p) implies (#[trigger] c(p)).len() <= n by {
        assert(transcripts[p].coeffs.len() <= n);
    }
    lemma_poly_sum_over(dom, c, n, root);
    // each share is congruent to the value of the total polynomial
    assert forall|j: int| 0 <= j < n implies cong((#[trigger] shares[j]).0@, eval(total, xs[j])) by {
        let x = xs[j];
        let v = eval(h, x);
        law_updated_share(v, transcripts, participants[j], x, keys[j], before[j], after[j]);
        lemma_poly_sum_over(dom, c, n, x);
        lemma_eval_sum(h, updates, x);
        lemma_sum_eq(dom, dealt_values(transcripts, x), |p: u32| eval(c(p), x));
        law_unblind_restores(shares[j], eval(total, x), keys[j].encryption_key@);
    }
    assert forall|j: int| 0 <= j < n implies is_basis_value(#[trigger] coeffs[j], xs, j, root) by {
        let x = xs[j];
    }
    law_shares_combine(total, xs, coeffs, shares, root);
    // the update polynomials vanish at the root
    lemma_eval_sum(h, updates, root);
    let values = |p: u32| eval(c(p), root);
    let zero = |p: u32| 0int;
    assert forall|p: u32| dom.contains(p) implies cong(#[trigger] values(p), zero(p)) by {
        assert(transcripts[p].coeffs.len() <= n);
    }
    lemma_sum_cong(dom, values, zero);
    lemma_sum_zero(dom);
    lemma_cong_ops(eval(h, root), eval(h, root), eval(updates, root), 0);
}

/// A refresh preserves the secret: where the update polynomials vanish at zero, the refreshed
/// shares combine to the constant term of the polynomial that was shared before.
pub proof fn law_refresh_preserves_secret(
    h: Seq<int>,
    transcripts: Map<u32, UpdateTranscript>,
    participants: Seq<u32>,
    xs: Seq<int>,
    keys: Seq<PublicKey>,
    before: Seq<BlindedKeyShare>,
    after: Seq<BlindedKeyShare>,
    shares: Seq<PrivateKeyShare>,
    coeffs: Seq<int>,
)
    requires
        h.len() > 0,
        is_update(h, transcripts, 0, participants, xs, keys, before, after, shares, coeffs),
    ensures
        cong(combination(coeffs, share_logs(shares)), h[0]),
{
    law_update_preserves_value_at_root(
        h,
        transcripts,
        0,
        participants,
        xs,
        keys,
        before,
        after,
        shares,
        coeffs,
    );
    assert(eval(h, 0) == h[0]);
}

/// What verification is for: whatever transcripts were accepted, by whomever they were dealt,
/// they make up an update with the root that was verified, among participants at their elements
/// of the domain, if no transcript commits to more coefficients than there are participants.
pub proof fn law_accepted_transcripts_preserve_value_at_root(
    h: Seq<int>,
    transcripts: Map<u32, UpdateTranscript>,
    all_keys: Map<u32, PublicKey>,
    domain: Seq<int>,
    root: int,
    participants: Seq<u32>,
    before: Seq<BlindedKeyShare>,
    after: Seq<BlindedKeyShare>,
    shares: Seq<PrivateKeyShare>,
    coeffs: Seq<int>,
)
    requires
        is_domain(domain),
        transcripts.dom().finite(),
        participants.no_duplicates(),
        before.len() == participants.len(),
        after.len() == participants.len(),
        shares.len() == participants.len(),
        coeffs.len() == participants.len(),
        h.len() <= participants.len(),
        forall|p: u32| #[trigger]
            transcripts.dom().contains(p) ==> {
                &&& accepted(transcripts[p], all_keys, domain, root)
                &&& transcripts[p].coeffs.len() <= participants.len()
                &&& forall|j: int|
                    0 <= j < participants.len() ==> transcripts[p].updates@.dom().contains(
                        #[trigger] participants[j],
                    )
            },
        forall|j: int|
            0 <= j < participants.len() ==> {
                let i = #[trigger] participants[j];
                let key = all_keys[i].encryption_key@;
                &&& i < domain.len()
                &&& !cong(key, 0)
                &&& before[j].blinded_key_share@ == residue(
                    eval(h, domain[i as int]) * key,
                )
                &&& after[j].blinded_key_share@ == residue(
                    before[j].blinded_key_share@ + sum_over(
                        transcripts.dom(),
                        update_logs(transcripts, i),
                    ),
                )
                &&& residue(shares[j].0@ * key) == after[j].blinded_key_share@
                &&& is_basis_value(coeffs[j], points_of(domain, participants), j, root)
            },
    ensures
        is_update(
            h,
            transcripts,
            root,
            participants,
            points_of(domain, participants),
            keys_of_participants(all_keys, participants),
            before,
            after,
            shares,
            coeffs,
        ),
        cong(combination(coeffs, share_logs(shares)), eval(h, root)),
{
    let n = participants.len();
    let xs = points_of(domain, participants);
    let keys = keys_of_participants(all_keys, participants);
    law_points_distinct(domain, participants);
    lemma_participants_bound(domain.len(), participants);
    assert forall|p: u32| #[trigger] transcripts.dom().contains(p) implies cong(
        eval(logs(transcripts[p].coeffs@), root),
        0,
    ) by {
        assert(accepted(transcripts[p], all_keys, domain, root));
    }
    assert forall|j: int| 0 <= j < n implies all_deal(
        transcripts,
        participants[j],
        #[trigger] xs[j],
        keys[j],
    ) && is_basis_value(coeffs[j], xs, j, root) by {
        let i = participants[j];
        assert forall|p: u32| #[trigger] transcripts.dom().contains(p) implies transcripts[p].deals_to(
            i,
            xs[j],
            keys[j],
        ) by {
            law_accepted_transcript_deals(transcripts[p], all_keys, domain, root, i);
        }
    }
    assert forall|j: int| 0 <= j < n implies {
        let key = keys[j].encryption_key@;
        &&& !cong(key, 0)
        &&& all_deal(transcripts, participants[j], #[trigger] xs[j], keys[j])
        &&& before[j].blinded_key_share@ == residue(eval(h, xs[j]) * key)
        &&& after[j].blinded_key_share@ == residue(
            before[j].blinded_key_share@ + sum_over(
                transcripts.dom(),
                update_logs(transcripts, participants[j]),
            ),
        )
        &&& residue(shares[j].0@ * key) == after[j].blinded_key_share@
        &&& is_basis_value(coeffs[j], xs, j, root)
    } by {
        let i = participants[j];
    }
    law_update_preserves_value_at_root(
        h,
        transcripts,
        root,
        participants,
        xs,
        keys,
        before,
        after,
        shares,
        coeffs,
    );
}

/// The keys of the participants.
pub open spec fn keys_of_participants(
    all_keys: Map<u32, PublicKey>,
    participants: Seq<u32>,
) -> Seq<PublicKey> {
    Seq::new(participants.len(), |j: int| all_keys[participants[j]])
}

/// There are no more distinct participants than the domain has elements.
proof fn lemma_participants_bound(size: nat, participants: Seq<u32>)
    requires
        participants.no_duplicates(),
        forall|j: int| 0 <= j < participants.len() ==> (#[trigger] participants[j]) < size,
    ensures
        participants.len() <= size,
{
    let s = Seq::new(participants.len(), |j: int| participants[j] as int);
    assert(s.no_duplicates());
    if participants.len() > 0 {
        let i = participants[0];
        lemma_pigeonhole(s, size as int);
    }
}

proof fn lemma_sum_zero(keys: Set<u32>)
    requires
        keys.finite(),
    ensures
        sum_over(keys, |p: u32| 0int) == 0,
    decreases keys.len(),
{
    if keys.len() > 0 {
        lemma_sum_zero(keys.remove(keys.choose()));
    }
}

/// Combinations of congruent values are congruent.
proof fn lemma_combination_cong(coeffs: Seq<int>, ys: Seq<int>, zs: Seq<int>)
    requires
        coeffs.len() == ys.len() == zs.len(),
        forall|j: int| 0 <= j < ys.len() ==> cong(#[trigger] ys[j], zs[j]),
    ensures
        cong(combination(coeffs, ys), combination(coeffs, zs)),
    decreases coeffs.len(),
{
    if coeffs.len() > 0 {
        let n = coeffs.len() - 1;
        lemma_combination_cong(coeffs.drop_last(), ys.drop_last(), zs.drop_last());
        assert(cong(ys[n], zs[n]));
        lemma_cong_ops(coeffs.last(), coeffs.last(), ys.last(), zs.last());
        lemma_cong_ops(
            combination(coeffs.drop_last(), ys.drop_last()),
            combination(coeffs.drop_last(), zs.drop_last()),
            coeffs.last() * ys.last(),
            coeffs.last() * zs.last(),
        );
    }
}

/// Updates can be applied in batches: applying the transcripts of some producers and then those
/// of others gives what applying all of them at once gives.
pub proof fn law_updates_in_batches(
    first: Map<u32, UpdateTranscript>,
    second: Map<u32, UpdateTranscript>,
    index: u32,
    public_key: PublicKey,
    share: int,
)
    requires
        first.dom().finite(),
        second.dom().finite(),
        first.dom().disjoint(second.dom()),
    ensures
        ({
            let both = first.union_prefer_right(second);
            let half = residue(share + sum_over(first.dom(), update_logs(first, index)));
            &&& updates_apply(both, index, public_key) <==> updates_apply(first, index, public_key)
                && updates_apply(second, index, public_key)
            &&& residue(half + sum_over(second.dom(), update_logs(second, index))) == residue(
                share + sum_over(both.dom(), update_logs(both, index)),
            )
        }),
{
    let both = first.union_prefer_right(second);
    let (f, g, h) = (
        update_logs(first, index),
        update_logs(second, index),
        update_logs(both, index),
    );
    assert(both.dom() =~= first.dom().union(second.dom()));
    lemma_sum_union(first.dom(), second.dom(), h);
    assert forall|p: u32| first.dom().contains(p) implies #[trigger] f(p) == h(p) by {
        assert(both[p] == first[p]);
    }
    assert forall|p: u32| second.dom().contains(p) implies #[trigger] g(p) == h(p) by {
        assert(both[p] == second[p]);
    }
    lemma_sum_eq(first.dom(), f, h);
    lemma_sum_eq(second.dom(), g, h);
    let partial = share + sum_over(first.dom(), f);
    lemma_cong_residue(partial);
    lemma_cong_ops(residue(partial), partial, sum_over(second.dom(), g), sum_over(second.dom(), g));
    if updates_apply(both, index, public_key) {
        assert forall|p: u32| #[trigger] first.dom().contains(p) implies first[p].updates@.dom().contains(
            index,
        ) && first[p].updates@[index].is_valid(public_key) by {
            assert(both.dom().contains(p) && both[p] == first[p]);
        }
        assert forall|p: u32| #[trigger] second.dom().contains(p) implies second[p].updates@.dom().contains(
            index,
        ) && second[p].updates@[index].is_valid(public_key) by {
            assert(both.dom().contains(p) && both[p] == second[p]);
        }
    }
    if updates_apply(first, index, public_key) && updates_apply(second, index, public_key) {
        assert forall|p: u32| #[trigger] both.dom().contains(p) implies both[p].updates@.dom().contains(
            index,
        ) && both[p].updates@[index].is_valid(public_key) by {
            if second.dom().contains(p) {
                assert(both[p] == second[p]);
            } else {
                assert(first.dom().contains(p) && both[p] == first[p]);
            }
        }
    }
}

/// No transcripts, no change.
pub proof fn law_no_updates_change_nothing(index: u32, share: int)
    requires
        0 <= share < order(),
    ensures
        residue(
            share + sum_over(
                Set::empty(),
                update_logs(Map::<u32, UpdateTranscript>::empty(), index),
            ),
        ) == share,
{
    lemma_residue(share);
}

// ---------------------------------------------------------------------------------------------
// Combining shares
// ---------------------------------------------------------------------------------------------

/// Among points no two of which are congruent unless they are equal, a point has one Lagrange
/// coefficient only.
pub proof fn law_lagrange_coefficient_unique(u: int, v: int, xs: Seq<int>, j: int, x: int)
    requires
        0 <= j < xs.len(),
        forall|i: int| 0 <= i < xs.len() && #[trigger] xs[i] != xs[j] ==> !cong(xs[j], xs[i]),
        is_basis_value(u, xs, j, x),
        is_basis_value(v, xs, j, x),
    ensures
        cong(u, v),
{
    lemma_basis_product_unit(xs, xs[j]);
    lemma_cancel_factor(basis_product(xs, xs[j], xs[j]), u, v);
}

/// Shares at distinct points, at least as many as the polynomial has coefficients, combine to
/// its value at any point.
pub proof fn law_shares_combine(
    h: Seq<int>,
    xs: Seq<int>,
    coeffs: Seq<int>,
    shares: Seq<PrivateKeyShare>,
    x: int,
)
    requires
        h.len() <= xs.len(),
        coeffs.len() == xs.len(),
        shares.len() == xs.len(),
        all_distinct(xs),
        forall|j: int| 0 <= j < xs.len() ==> is_basis_value(#[trigger] coeffs[j], xs, j, x),
        forall|j: int| 0 <= j < xs.len() ==> cong((#[trigger] shares[j]).0@, eval(h, xs[j])),
    ensures
        cong(combination(coeffs, share_logs(shares)), eval(h, x)),
{
    assert forall|j: int| 0 <= j < xs.len() implies cong(
        #[trigger] share_logs(shares)[j],
        evals(h, xs)[j],
    ) by {
        assert(cong(shares[j].0@, eval(h, xs[j])));
    }
    lemma_combination_cong(coeffs, share_logs(shares), evals(h, xs));
    lemma_interpolation(h, xs, coeffs, x);
}

/// The terms that the holders of shares contribute, each computed by its holder alone, sum up
/// to the secret in any order, if there are at least as many as the polynomial has coefficients.
pub proof fn law_precomputed_shares_combine(
    h: Seq<int>,
    domain_points: Map<u32, DomainPoint>,
    inputs: Map<u32, PrecomputedShareInputs>,
)
    requires
        0 < h.len() <= domain_points.dom().len(),
        domain_points.dom().finite(),
        forall|i: u32, j: u32|
            domain_points.dom().contains(i) && domain_points.dom().contains(j) && i != j
                ==> !cong((#[trigger] domain_points[i])@, (#[trigger] domain_points[j])@),
        forall|i: u32| #[trigger]
            domain_points.dom().contains(i) ==> {
                &&& cong(inputs[i].private_key_share.0@, eval(h, domain_points[i]@))
                &&& is_basis_value(
                    inputs[i].lagrange_coeff@,
                    points_in_order(domain_points),
                    in_order(domain_points.dom()).index_of(i),
                    0,
                )
            },
    ensures
        cong(
            sum_over(
                domain_points.dom(),
                |i: u32| inputs[i].lagrange_coeff@ * inputs[i].private_key_share.0@,
            ),
            h[0],
        ),
{
    let order_of = in_order(domain_points.dom());
    lemma_in_order_lists(domain_points.dom());
    let xs = points_in_order(domain_points);
    let n = order_of.len();
    let ls = Seq::new(n, |j: int| inputs[order_of[j]].lagrange_coeff@);
    let ys = Seq::new(n, |j: int| inputs[order_of[j]].private_key_share.0@);
    assert(order_of.no_duplicates());
    order_of.unique_seq_to_set();
    assert forall|j: int| 0 <= j < n implies domain_points.dom().contains(#[trigger] order_of[j]) by {
        assert(order_of.to_set().contains(order_of[j]));
    }
    assert forall|j: int| 0 <= j < n implies is_basis_value(#[trigger] ls[j], xs, j, 0) by {
        assert(domain_points.dom().contains(order_of[j]));
        assert(order_of.index_of(order_of[j]) == j);
    }
    assert forall|i: int, j: int| 0 <= i < j < xs.len() implies !cong(
        #[trigger] xs[i],
        #[trigger] xs[j],
    ) by {
        assert(domain_points.dom().contains(order_of[i]));
        assert(domain_points.dom().contains(order_of[j]));
        assert(order_of[i] != order_of[j]);
        assert(!cong(domain_points[order_of[i]]@, domain_points[order_of[j]]@));
    }
    lemma_interpolation(h, xs, ls, 0);
    assert(eval(h, 0) == h[0]);
    assert forall|j: int| 0 <= j < ys.len() implies cong(#[trigger] ys[j], evals(h, xs)[j]) by {
        assert(domain_points.dom().contains(order_of[j]));
    }
    lemma_combination_cong(ls, ys, evals(h, xs));
    let f = |i: u32| inputs[i].lagrange_coeff@ * inputs[i].private_key_share.0@;
    lemma_combination_is_sum(order_of, ls, ys, f, n);
    assert(order_of.take(n as int) =~= order_of);
    assert(ls.take(n as int) =~= ls);
    assert(ys.take(n as int) =~= ys);
}

/// A combination in the order of a list is the sum over its members.
proof fn lemma_combination_is_sum(
    keys: Seq<u32>,
    ls: Seq<int>,
    ys: Seq<int>,
    f: spec_fn(u32) -> int,
    n: nat,
)
    requires
        keys.no_duplicates(),
        n <= keys.len() == ls.len() == ys.len(),
        forall|j: int| 0 <= j < keys.len() ==> f(#[trigger] keys[j]) == ls[j] * ys[j],
    ensures
        combination(ls.take(n as int), ys.take(n as int)) == sum_over(
            keys.take(n as int).to_set(),
            f,
        ),
    decreases n,
{
    if n == 0 {
        assert(keys.take(0).to_set() =~= Set::empty());
    } else {
        let m = (n - 1) as nat;
        lemma_combination_is_sum(keys, ls, ys, f, m);
        lemma_sum_prefix(keys, f, m as int);
        assert(ls.take(n as int).drop_last() =~= ls.take(m as int));
        assert(ys.take(n as int).drop_last() =~= ys.take(m as int));
        assert(f(keys[m as int]) == ls[m as int] * ys[m as int]);
    }
}

// ---------------------------------------------------------------------------------------------
// Handover
// ---------------------------------------------------------------------------------------------

/// An honest handover transcript validates against the commitment to the share that it hands
/// over, unless its random scalar or one of the two keys is zero.
pub proof fn law_honest_handover_validates(
    transcript: HandoverTranscript,
    share_index: u32,
    outgoing_blinded_share: BlindedKeyShare,
    outgoing_pubkey: PublicKey,
    incoming: Keypair,
    t: int,
    share_commitment: ShareCommitment,
)
    requires
        transcript.hands_over(share_index, outgoing_blinded_share, outgoing_pubkey, incoming, t),
        outgoing_blinded_share.blinded_key_share@ == residue(
            share_commitment.0@ * outgoing_pubkey.encryption_key@,
        ),
        !cong(t, 0),
        !cong(outgoing_pubkey.encryption_key@, 0),
        !cong(incoming.decryption_key@, 0),
    ensures
        transcript.is_valid(share_commitment),
{
    let (s, k, d) = (
        share_commitment.0@,
        outgoing_pubkey.encryption_key@,
        incoming.decryption_key@,
    );
    // t * double_blind_share is congruent to t * (s * k * d)
    lemma_cong_residue(s * k);
    lemma_cong_ops(residue(s * k), s * k, d, d);
    lemma_cong_residue(residue(s * k) * d);
    lemma_cong_ops(t, t, residue(residue(s * k) * d), s * k * d);
    // s * commitment_to_share is congruent to s * (k * (d * t))
    lemma_cong_residue(k * (d * t));
    lemma_cong_ops(s, s, residue(k * (d * t)), k * (d * t));
    assert(t * (s * k * d) == s * (k * (d * t))) by (nonlinear_arith);
    // neither commitment is the identity
    if cong(k * (d * t), 0) {
        lemma_zero_product(k, d * t);
        lemma_zero_product(d, t);
    }
    lemma_residue(0);
}

/// A handover keeps the private share: what is left after the departing validator took its key
/// off an honest transcript is the same share, blinded by the incoming key.
pub proof fn law_handover_preserves_share(
    transcript: HandoverTranscript,
    share_index: u32,
    outgoing_blinded_share: BlindedKeyShare,
    departing: Keypair,
    outgoing_pubkey: PublicKey,
    incoming: Keypair,
    t: int,
    s: int,
    finalized: BlindedKeyShare,
    unblinded: PrivateKeyShare,
)
    requires
        transcript.hands_over(share_index, outgoing_blinded_share, outgoing_pubkey, incoming, t),
        outgoing_blinded_share.blinded_key_share@ == residue(s * departing.decryption_key@),
        !cong(departing.decryption_key@, 0),
        !cong(incoming.decryption_key@, 0),
        residue(finalized.blinded_key_share@ * departing.decryption_key@)
            == transcript.double_blind_share@,
        residue(unblinded.0@ * incoming.decryption_key@) == finalized.blinded_key_share@,
    ensures
        finalized.blinded_key_share@ == residue(s * incoming.decryption_key@),
        cong(unblinded.0@, s),
{
    let (k, d, y) = (
        departing.decryption_key@,
        incoming.decryption_key@,
        finalized.blinded_key_share@,
    );
    lemma_cong_residue(s * k);
    lemma_cong_ops(residue(s * k), s * k, d, d);
    assert(s * k * d == (s * d) * k) by (nonlinear_arith);
    lemma_cancel_factor(k, y, s * d);
    finalized.blinded_key_share.lemma_range();
    law_unblind_restores(unblinded, s, d);
}

/// A valid transcript is bound to the committed share: where its commitment to the share is the
/// outgoing key times some `d` times its random scalar, its double-blind share is the committed
/// one, blinded by the outgoing key and by `d`, and no other.
pub proof fn law_valid_handover_is_bound(
    transcript: HandoverTranscript,
    share_commitment: ShareCommitment,
    outgoing_key: int,
    d: int,
)
    requires
        transcript.is_valid(share_commitment),
        cong(
            transcript.commitment_to_share@,
            outgoing_key * (d * transcript.commitment_to_g1@),
        ),
    ensures
        cong(transcript.double_blind_share@, share_commitment.0@ * outgoing_key * d),
{
    let (t, b, s, c) = (
        transcript.commitment_to_g1@,
        transcript.double_blind_share@,
        share_commitment.0@,
        transcript.commitment_to_share@,
    );
    lemma_not_zero(transcript.commitment_to_g1);
    lemma_cong_ops(s, s, c, outgoing_key * (d * t));
    assert(s * (outgoing_key * (d * t)) == (s * outgoing_key * d) * t) by (nonlinear_arith);
    assert(t * b == b * t) by (nonlinear_arith);
    lemma_cancel_factor(t, b, s * outgoing_key * d);
}

/// A point of G1 that is not the identity has a logarithm that is not congruent to zero.
proof fn lemma_not_zero(p: G1Point)
    requires
        p@ != 0,
    ensures
        !cong(p@, 0),
{
    p.lemma_range();
    lemma_residue(0);
}

/// No transcript is valid for two shares.
pub proof fn law_valid_handover_fixes_the_share(
    transcript: HandoverTranscript,
    first: ShareCommitment,
    second: ShareCommitment,
)
    requires
        transcript.is_valid(first),
        transcript.is_valid(second),
    ensures
        first.0@ == second.0@,
{
    transcript.commitment_to_share.lemma_range();
    first.0.lemma_range();
    second.0.lemma_range();
    lemma_residue(0);
    lemma_cancel_factor(transcript.commitment_to_share@, first.0@, second.0@);
}

/// A transcript with the identity in place of one of its commitments is valid for no share.
pub proof fn law_identity_commitments_are_refused(
    transcript: HandoverTranscript,
    share_commitment: ShareCommitment,
)
    requires
        transcript.commitment_to_g1@ == 0 || transcript.commitment_to_g2@ == 0
            || transcript.commitment_to_share@ == 0,
    ensures
        !transcript.is_valid(share_commitment),
{
}

/// A handover keeps the secret: the share that was handed over combines with the others as the
/// one that it replaces did.
pub proof fn law_handover_preserves_secret(
    h: Seq<int>,
    xs: Seq<int>,
    coeffs: Seq<int>,
    shares: Seq<PrivateKeyShare>,
    slot: int,
    handed_over: PrivateKeyShare,
    x: int,
)
    requires
        h.len() <= xs.len(),
        coeffs.len() == xs.len(),
        shares.len() == xs.len(),
        all_distinct(xs),
        forall|j: int| 0 <= j < xs.len() ==> is_basis_value(#[trigger] coeffs[j], xs, j, x),
        forall|j: int| 0 <= j < xs.len() ==> cong((#[trigger] shares[j]).0@, eval(h, xs[j])),
        0 <= slot < xs.len(),
        cong(handed_over.0@, shares[slot].0@),
    ensures
        cong(combination(coeffs, share_logs(shares.update(slot, handed_over))), eval(h, x)),
{
    let after = shares.update(slot, handed_over);
    assert forall|j: int| 0 <= j < xs.len() implies cong(
        (#[trigger] after[j]).0@,
        eval(h, xs[j]),
    ) by {
        assert(cong(shares[j].0@, eval(h, xs[j])));
    }
    law_shares_combine(h, xs, coeffs, after, x);
}

} // verus!
