//! Byte-oriented (t, n) secret sharing over GF(256).
//!
//! A secret byte string is cut into `n` shares such that any `t` of them,
//! with pairwise distinct indices, recover it exactly, while the
//! interpolation itself is done by the `sharks` crate behind trusted
//! wrappers. All validation — positive indices, duplicate rejection,
//! consistent lengths, threshold counting — is this module's own verified
//! logic.

use vstd::prelude::*;

use crate::errors::CoreError;
use crate::hexcode;

verus! {

/// One Shamir share: a positive index and the share's value bytes, one per
/// secret byte.
#[derive(Clone, Debug)]
pub struct ShamirShare {
    pub index: u8,
    pub value: Vec<u8>,
}

impl ShamirShare {
    /// The share's byte form: the index byte followed by the value bytes.
    pub open spec fn blob(&self) -> Seq<u8> {
        seq![self.index] + self.value@
    }

    /// A well-formed share has a positive index and a non-empty value.
    pub open spec fn wf(&self) -> bool {
        &&& self.index >= 1
        &&& self.value@.len() >= 1
    }

    /// Parses a share from its byte form: one index byte, then at least one
    /// value byte. A zero index or a short input is a malformed share.
    pub fn from_bytes(b: &[u8]) -> (r: Result<ShamirShare, CoreError>)
        ensures
            r is Ok <==> b@.len() >= 2 && b@[0] >= 1,
            r matches Ok(s) ==> s.blob() == b@ && s.wf(),
            r is Err ==> r == Err::<ShamirShare, CoreError>(CoreError::MalformedShare),
    {
        if b.len() < 2 || b[0] == 0 {
            return Err(CoreError::MalformedShare);
        }
        let index: u8 = b[0];
        let mut value: Vec<u8> = Vec::new();
        let mut i: usize = 1;
        while i < b.len()
            invariant
                1 <= i <= b@.len(),
                value@ =~= b@.subrange(1, i as int),
            decreases b@.len() - i,
        {
            value.push(b[i]);
            i = i + 1;
        }
        let s = ShamirShare { index, value };
        assert(s.blob() =~= b@);
        Ok(s)
    }

    /// Parses a share from hex text: malformed hex is `InvalidInput`, a
    /// structurally invalid decoded share is `MalformedShare`.
    pub fn from_hex(h: &[u8]) -> (r: Result<ShamirShare, CoreError>)
        ensures
            r is Ok <==> hexcode::hex_valid(h@) && hexcode::spec_hex_decode(h@).len() >= 2
                && hexcode::spec_hex_decode(h@)[0] >= 1,
            r matches Ok(s) ==> s.blob() == hexcode::spec_hex_decode(h@) && s.wf(),
            !hexcode::hex_valid(h@) ==> r == Err::<ShamirShare, CoreError>(CoreError::InvalidInput),
            r is Err && hexcode::hex_valid(h@) ==> r == Err::<ShamirShare, CoreError>(
                CoreError::MalformedShare,
            ),
    {
        match hexcode::hex_decode(h) {
            Ok(bytes) => Self::from_bytes(bytes.as_slice()),
            Err(e) => Err(e),
        }
    }

    /// The share's byte form, for transport.
    pub fn to_bytes(&self) -> (r: Vec<u8>)
        ensures
            r@ == self.blob(),
    {
        let mut out: Vec<u8> = Vec::new();
        out.push(self.index);
        let mut i: usize = 0;
        while i < self.value.len()
            invariant
                i <= self.value@.len(),
                out@ =~= seq![self.index] + self.value@.take(i as int),
            decreases self.value@.len() - i,
        {
            out.push(self.value[i]);
            i = i + 1;
        }
        assert(out@ =~= self.blob());
        out
    }

    /// The share's lower-case hex form, for presentation to a participant.
    pub fn to_hex(&self) -> (r: Vec<u8>)
        ensures
            r@ == hexcode::spec_hex_encode(self.blob()),
    {
        let bytes = self.to_bytes();
        hexcode::hex_encode(bytes.as_slice())
    }
}

/// The byte forms of a share list.
pub open spec fn blobs_of(shares: Seq<ShamirShare>) -> Seq<Seq<u8>> {
    shares.map_values(|s: ShamirShare| s.blob())
}

/// Every share is well-formed.
pub open spec fn all_wf(shares: Seq<ShamirShare>) -> bool {
    forall|i: int| 0 <= i < shares.len() ==> (#[trigger] shares[i]).wf()
}

/// Two shares claim the same index.
pub open spec fn has_duplicate(shares: Seq<ShamirShare>) -> bool {
    exists|i: int, j: int|
        0 <= i < j < shares.len() && (#[trigger] shares[i]).index == (#[trigger] shares[j]).index
}

/// All share values have one and the same length.
pub open spec fn consistent_lengths(shares: Seq<ShamirShare>) -> bool {
    forall|i: int, j: int|
        0 <= i < shares.len() && 0 <= j < shares.len() ==> (#[trigger] shares[i]).value@.len()
            == (#[trigger] shares[j]).value@.len()
}

/// The byte-form share lists have pairwise distinct index bytes.
pub open spec fn distinct_indices(blobs: Seq<Seq<u8>>) -> bool {
    forall|i: int, j: int|
        0 <= i < j < blobs.len() ==> (#[trigger] blobs[i])[0] != (#[trigger] blobs[j])[0]
}

/// Every element of `sel` occurs in `from`.
pub open spec fn selection_of(sel: Seq<Seq<u8>>, from: Seq<Seq<u8>>) -> bool {
    forall|i: int| 0 <= i < sel.len() ==> from.contains(#[trigger] sel[i])
}

/// What the interpolation of the `sharks` crate returns for a threshold and
/// a share list in byte form. The value is a function of the arguments
/// alone; nothing but the trusted wrappers below says what it is on any
/// given input.
pub uninterp spec fn recover_of(threshold: u8, blobs: Seq<Seq<u8>>) -> Seq<u8>;

/// A dealing of `secret` with the given threshold: every selection of its
/// shares with pairwise distinct indices and at least `threshold` elements
/// interpolates back to `secret`.
pub open spec fn is_dealing(threshold: u8, secret: Seq<u8>, blobs: Seq<Seq<u8>>) -> bool {
    forall|sel: Seq<Seq<u8>>|
        selection_of(sel, blobs) && distinct_indices(sel) && threshold <= sel.len()
            ==> #[trigger] recover_of(threshold, sel) == secret
}

/// Relies on sharks' `Sharks::dealer` and on `Vec::from(&Share)`: the dealer
/// yields shares for the points x = 1, 2, ... in order, each one index byte
/// followed by one value byte per secret byte, and the crate's documented
/// contract is that any `threshold` many distinct shares recover the
/// original secret through `Sharks::recover`. Note that the dealer draws
/// its random polynomial coefficients from 1 to 255, never 0, so the
/// distribution of fewer than `threshold` shares is close to, not exactly,
/// independent of the secret.
#[verifier::external_body]
fn sharks_dealer(threshold: u8, secret: &[u8], total: usize) -> (r: Vec<Vec<u8>>)
    requires
        1 <= threshold,
        1 <= secret@.len(),
        total <= 255,
    ensures
        r@.len() == total,
        forall|i: int|
            0 <= i < total ==> (#[trigger] r@[i])@.len() == secret@.len() + 1 && r@[i]@[0] == i
                + 1,
        is_dealing(threshold, secret@, r.deep_view()),
{
    let sharks = sharks::Sharks(threshold);
    sharks.dealer(secret).take(total).map(|s| Vec::from(&s)).collect()
}

/// Relies on sharks' `Sharks::recover` and `Share::try_from`: given at least
/// `threshold` shares of equal length with pairwise distinct index bytes,
/// the crate returns the interpolated secret, one byte per value byte.
#[verifier::external_body]
fn sharks_recover(threshold: u8, blobs: &Vec<Vec<u8>>) -> (r: Vec<u8>)
    requires
        1 <= threshold,
        threshold <= blobs@.len(),
        forall|i: int| 0 <= i < blobs@.len() ==> (#[trigger] blobs@[i])@.len() >= 2,
        forall|i: int, j: int|
            0 <= i < blobs@.len() && 0 <= j < blobs@.len() ==> (#[trigger] blobs@[i])@.len() == (
            #[trigger] blobs@[j])@.len(),
        distinct_indices(blobs.deep_view()),
    ensures
        r@ == recover_of(threshold, blobs.deep_view()),
        r@.len() + 1 == blobs@[0]@.len(),
{
    let shares: Vec<sharks::Share> = blobs
        .iter()
        .map(|b| sharks::Share::try_from(b.as_slice()).unwrap())
        .collect();
    sharks::Sharks(threshold).recover(&shares).unwrap()
}

/// The split parameters and secret a dealing accepts: a positive threshold
/// of at most the total, at most 255 shares, and a non-empty secret.
pub open spec fn split_ok(threshold: u8, total: usize, secret_len: nat) -> bool {
    &&& 1 <= threshold
    &&& threshold <= total
    &&& total <= 255
    &&& secret_len >= 1
}

/// Splits a secret into `total` shares with recovery threshold `threshold`.
///
/// On success the shares carry the indices 1 to `total` in order, one value
/// byte per secret byte, and form a dealing of the secret: any `threshold`
/// of them with distinct indices recover it exactly.
pub fn split(secret: &[u8], threshold: u8, total: usize) -> (r: Result<
    Vec<ShamirShare>,
    CoreError,
>)
    ensures
        r is Ok <==> split_ok(threshold, total, secret@.len()),
        r is Err ==> r == Err::<Vec<ShamirShare>, CoreError>(CoreError::InvalidInput),
        r matches Ok(shares) ==> {
            &&& shares@.len() == total
            &&& all_wf(shares@)
            &&& !has_duplicate(shares@)
            &&& consistent_lengths(shares@)
            &&& forall|i: int|
                0 <= i < total ==> (#[trigger] shares@[i]).index == i + 1 && shares@[i].value@.len()
                    == secret@.len()
            &&& is_dealing(threshold, secret@, blobs_of(shares@))
        },
{
    if threshold < 1 || (threshold as usize) > total || total > 255 || secret.len() < 1 {
        return Err(CoreError::InvalidInput);
    }
    let raw = sharks_dealer(threshold, secret, total);
    let mut shares: Vec<ShamirShare> = Vec::new();
    let mut i: usize = 0;
    while i < raw.len()
        invariant
            i <= raw@.len(),
            raw@.len() == total,
            total <= 255,
            1 <= secret@.len(),
            forall|k: int|
                0 <= k < total ==> (#[trigger] raw@[k])@.len() == secret@.len() + 1 && raw@[k]@[0]
                    == k + 1,
            shares@.len() == i,
            forall|k: int|
                0 <= k < i ==> (#[trigger] shares@[k]).blob() == raw@[k]@ && shares@[k].index == k
                    + 1 && shares@[k].value@.len() == secret@.len() && shares@[k].wf(),
        decreases raw@.len() - i,
    {
        let s = match ShamirShare::from_bytes(raw[i].as_slice()) {
            Ok(s) => s,
            Err(e) => {
                proof {
                    assert(raw@[i as int]@[0] == i + 1);
                }
                return Err(CoreError::InvalidInput);
            },
        };
        proof {
            assert(s.blob() == raw@[i as int]@);
            assert(s.blob()[0] == s.index);
        }
        shares.push(s);
        i = i + 1;
    }
    proof {
        assert(blobs_of(shares@) =~~= raw.deep_view());
    }
    Ok(shares)
}

/// The exact result of recovery: parameter and structure checks first, then
/// the interpolation of the first `threshold` shares.
///
/// A zero threshold is `InvalidInput`; a malformed share, a duplicated
/// index or inconsistent value lengths are `MalformedShare`; fewer than
/// `threshold` shares are `InsufficientShares`; otherwise the result is the
/// interpolated secret of exactly the first `threshold` shares.
pub open spec fn spec_recover(threshold: u8, shares: Seq<ShamirShare>) -> Result<
    Seq<u8>,
    CoreError,
> {
    if threshold < 1 {
        Err(CoreError::InvalidInput)
    } else if !all_wf(shares) || has_duplicate(shares) || !consistent_lengths(shares) {
        Err(CoreError::MalformedShare)
    } else if shares.len() < threshold {
        Err(CoreError::InsufficientShares)
    } else {
        Ok(recover_of(threshold, blobs_of(shares.take(threshold as int))))
    }
}

/// True when a share with the given index is already present.
pub(crate) fn contains_index(shares: &Vec<ShamirShare>, idx: u8) -> (r: bool)
    ensures
        r == exists|i: int| 0 <= i < shares@.len() && (#[trigger] shares@[i]).index == idx,
{
    let mut i: usize = 0;
    while i < shares.len()
        invariant
            i <= shares@.len(),
            forall|k: int| 0 <= k < i ==> (#[trigger] shares@[k]).index != idx,
        decreases shares@.len() - i,
    {
        if shares[i].index == idx {
            return true;
        }
        i = i + 1;
    }
    false
}

/// True when two shares in the list claim the same index.
fn find_duplicate(shares: &Vec<ShamirShare>) -> (r: bool)
    ensures
        r == has_duplicate(shares@),
{
    let mut j: usize = 0;
    while j < shares.len()
        invariant
            j <= shares@.len(),
            forall|a: int, b: int|
                0 <= a < b < j ==> (#[trigger] shares@[a]).index != (#[trigger] shares@[b]).index,
        decreases shares@.len() - j,
    {
        let mut i: usize = 0;
        while i < j
            invariant
                i <= j < shares@.len(),
                forall|a: int| 0 <= a < i ==> (#[trigger] shares@[a]).index != shares@[j as int].index,
            decreases j - i,
        {
            if shares[i].index == shares[j].index {
                return true;
            }
            i = i + 1;
        }
        j = j + 1;
    }
    false
}

/// Recovers the secret from a share list, per `spec_recover`: the supplied
/// shares are all validated, and exactly the first `threshold` of them are
/// interpolated.
pub fn recover(threshold: u8, shares: &Vec<ShamirShare>) -> (r: Result<Vec<u8>, CoreError>)
    ensures
        r is Ok <==> spec_recover(threshold, shares@) is Ok,
        r matches Ok(b) ==> spec_recover(threshold, shares@) == Ok::<Seq<u8>, CoreError>(b@)
            && b@.len() == shares@[0].value@.len(),
        r matches Err(e) ==> spec_recover(threshold, shares@) == Err::<Seq<u8>, CoreError>(e),
{
    if threshold < 1 {
        return Err(CoreError::InvalidInput);
    }
    let mut i: usize = 0;
    while i < shares.len()
        invariant
            threshold >= 1,
            i <= shares@.len(),
            forall|k: int| 0 <= k < i ==> (#[trigger] shares@[k]).wf(),
        decreases shares@.len() - i,
    {
        if shares[i].index < 1 || shares[i].value.len() < 1 {
            proof {
                assert(!(shares@[i as int]).wf());
                assert(!all_wf(shares@));
            }
            return Err(CoreError::MalformedShare);
        }
        i = i + 1;
    }
    if find_duplicate(shares) {
        return Err(CoreError::MalformedShare);
    }
    let first_len: usize = if shares.len() > 0 {
        shares[0].value.len()
    } else {
        0
    };
    let mut i: usize = 0;
    while i < shares.len()
        invariant
            threshold >= 1,
            i <= shares@.len(),
            shares@.len() > 0 ==> first_len == shares@[0].value@.len(),
            forall|k: int| 0 <= k < i ==> (#[trigger] shares@[k]).value@.len() == first_len,
        decreases shares@.len() - i,
    {
        if shares[i].value.len() != first_len {
            proof {
                assert(shares@[0].value@.len() == first_len);
                assert(!consistent_lengths(shares@));
            }
            return Err(CoreError::MalformedShare);
        }
        i = i + 1;
    }
    if shares.len() < threshold as usize {
        return Err(CoreError::InsufficientShares);
    }
    let mut blobs: Vec<Vec<u8>> = Vec::new();
    let mut i: usize = 0;
    while i < threshold as usize
        invariant
            i <= threshold as usize,
            threshold as usize <= shares@.len(),
            all_wf(shares@),
            !has_duplicate(shares@),
            consistent_lengths(shares@),
            blobs@.len() == i,
            forall|k: int| 0 <= k < i ==> (#[trigger] blobs@[k])@ == shares@[k].blob(),
        decreases threshold as usize - i,
    {
        blobs.push(shares[i].to_bytes());
        i = i + 1;
    }
    proof {
        let used = shares@.take(threshold as int);
        assert(blobs.deep_view() =~~= blobs_of(used));
        assert forall|a: int, b: int| 0 <= a < b < blobs@.len() implies (#[trigger] blobs.deep_view()[a])[0]
            != (#[trigger] blobs.deep_view()[b])[0] by {
            assert(blobs.deep_view()[a] == shares@[a].blob());
            assert(blobs.deep_view()[b] == shares@[b].blob());
            assert(shares@[a].blob()[0] == shares@[a].index);
            assert(shares@[b].blob()[0] == shares@[b].index);
            assert(shares@[a].index != shares@[b].index);
        }
        assert forall|k: int| 0 <= k < blobs@.len() implies (#[trigger] blobs@[k])@.len() >= 2 by {
            assert(blobs@[k]@ == shares@[k].blob());
        }
    }
    let secret = sharks_recover(threshold, &blobs);
    proof {
        assert(blobs@[0]@ == shares@[0].blob());
    }
    Ok(secret)
}

/// Any selection of at least `threshold` shares dealt from one secret, with
/// pairwise distinct indices, recovers exactly that secret.
pub proof fn lemma_split_then_recover(
    threshold: u8,
    secret: Seq<u8>,
    dealt: Seq<Seq<u8>>,
    picked: Seq<ShamirShare>,
)
    requires
        is_dealing(threshold, secret, dealt),
        1 <= threshold,
        all_wf(picked),
        !has_duplicate(picked),
        consistent_lengths(picked),
        threshold <= picked.len(),
        forall|i: int| 0 <= i < picked.len() ==> dealt.contains((#[trigger] picked[i]).blob()),
    ensures
        spec_recover(threshold, picked) == Ok::<Seq<u8>, CoreError>(secret),
{
    let used = picked.take(threshold as int);
    let sel = blobs_of(used);
    assert forall|i: int| 0 <= i < sel.len() implies dealt.contains(#[trigger] sel[i]) by {
        assert(sel[i] == used[i].blob());
        assert(used[i] == picked[i]);
    }
    assert forall|i: int, j: int| 0 <= i < j < sel.len() implies (#[trigger] sel[i])[0] != (
    #[trigger] sel[j])[0] by {
        assert(sel[i] == picked[i].blob());
        assert(sel[j] == picked[j].blob());
        assert(picked[i].blob()[0] == picked[i].index);
        assert(picked[j].blob()[0] == picked[j].index);
        assert(picked[i].index != picked[j].index);
    }
    assert(sel.len() == threshold as int);
    assert(recover_of(threshold, sel) == secret);
}

/// Fewer shares than the threshold never yield a secret: recovery refuses
/// them with an error, whatever the shares hold.
pub proof fn lemma_subthreshold_rejected(threshold: u8, shares: Seq<ShamirShare>)
    requires
        shares.len() < threshold,
    ensures
        spec_recover(threshold, shares) is Err,
{
}

/// The threshold boundary: exactly `threshold` valid shares succeed; any
/// smaller valid share list fails with `InsufficientShares`.
pub proof fn lemma_threshold_boundary(threshold: u8, shares: Seq<ShamirShare>)
    requires
        1 <= threshold,
        all_wf(shares),
        !has_duplicate(shares),
        consistent_lengths(shares),
    ensures
        shares.len() == threshold ==> spec_recover(threshold, shares) is Ok,
        shares.len() < threshold ==> spec_recover(threshold, shares) == Err::<Seq<u8>, CoreError>(
            CoreError::InsufficientShares,
        ),
{
}

/// Two shares claiming one and the same index are rejected as malformed,
/// never silently deduplicated into a wrong answer.
pub proof fn lemma_duplicate_index_rejected(threshold: u8, shares: Seq<ShamirShare>)
    requires
        1 <= threshold,
        has_duplicate(shares),
    ensures
        spec_recover(threshold, shares) == Err::<Seq<u8>, CoreError>(CoreError::MalformedShare),
{
}

} // verus!
