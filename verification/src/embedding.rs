//! Fixed-point embedding vectors and the validation of an embedding
//! provider's response.
//!
//! The external provider returns one fixed-dimension numeric vector per
//! requested text. The caller converts each coordinate to fixed-point form
//! (one provider unit is `SCALE`), and this module checks the provider kept
//! its contract: one vector per text, every vector of the configured
//! dimension, every coordinate within the unit range. A response that
//! breaks the contract is a `MalformedResponse` and is never padded with
//! fabricated vectors.

use crate::errors::PipelineError;
use vstd::prelude::*;

verus! {

/// Fixed-point scale: a provider coordinate of 1.0 is stored as `SCALE`.
pub const SCALE: i64 = 1_000_000;

/// All components of a fixed-point vector lie within the unit range.
pub open spec fn bounded(s: Seq<i64>) -> bool {
    forall|i: int| 0 <= i < s.len() ==> -SCALE <= #[trigger] s[i] <= SCALE
}

/// A fixed-dimension embedding vector in fixed-point form.
#[derive(Debug)]
pub struct Embedding {
    pub components: Vec<i64>,
}

impl View for Embedding {
    type V = Seq<i64>;

    open spec fn view(&self) -> Seq<i64> {
        self.components@
    }
}

impl Embedding {
    /// A well-formed embedding keeps every component within the unit range.
    pub open spec fn wf(&self) -> bool {
        bounded(self@)
    }

    /// The vector's dimension.
    pub fn dim(&self) -> (d: usize)
        ensures
            d == self@.len(),
    {
        self.components.len()
    }

    /// An identical copy of the vector.
    pub fn duplicate(&self) -> (r: Embedding)
        ensures
            r@ == self@,
    {
        let components = self.components.clone();
        proof {
            assert(components@ =~= self.components@);
        }
        Embedding { components }
    }
}

/// Inner product of two fixed-point vectors: the similarity measure of the
/// vector index. For vectors scaled from unit-length provider vectors this
/// is the cosine similarity times `SCALE * SCALE`.
pub open spec fn dot(a: Seq<i64>, b: Seq<i64>) -> int
    decreases a.len(),
{
    if a.len() == 0 || b.len() == 0 {
        0
    } else {
        dot(a.drop_last(), b.drop_last()) + a.last() * b.last()
    }
}

/// The inner product of two bounded equal-length vectors, exactly.
pub fn dot_product(a: &Vec<i64>, b: &Vec<i64>) -> (r: i128)
    requires
        bounded(a@),
        bounded(b@),
        a@.len() == b@.len(),
    ensures
        r == dot(a@, b@),
{
    let n = a.len();
    let mut acc: i128 = 0;
    let mut i: usize = 0;
    while i < n
        invariant
            0 <= i <= n,
            n == a@.len() == b@.len(),
            bounded(a@),
            bounded(b@),
            acc == dot(a@.take(i as int), b@.take(i as int)),
            -(i as int * SCALE * SCALE) <= acc <= i as int * SCALE * SCALE,
        decreases n - i,
    {
        let x = a[i];
        let y = b[i];
        proof {
            assert(-(SCALE as int) * (SCALE as int) <= x * y <= (SCALE as int) * (SCALE as int))
                by (nonlinear_arith)
                requires
                    -SCALE <= x <= SCALE,
                    -SCALE <= y <= SCALE,
            ;
            assert((i as int + 1) * (SCALE as int) * (SCALE as int) <= (usize::MAX as int)
                * (SCALE as int) * (SCALE as int)) by (nonlinear_arith)
                requires
                    i as int + 1 <= usize::MAX as int,
            ;
            assert(a@.take(i + 1).drop_last() =~= a@.take(i as int));
            assert(b@.take(i + 1).drop_last() =~= b@.take(i as int));
        }
        let prod: i128 = (x as i128) * (y as i128);
        acc = acc + prod;
        i = i + 1;
    }
    proof {
        assert(a@.take(n as int) =~= a@);
        assert(b@.take(n as int) =~= b@);
    }
    acc
}

/// Whether a raw provider response obeys the embedding contract: one vector
/// per requested text, each of dimension `dim`, each coordinate within the
/// fixed-point unit range.
pub open spec fn well_formed_response(raw: Seq<Vec<i64>>, expected: int, dim: int) -> bool {
    &&& raw.len() == expected
    &&& forall|j: int| 0 <= j < raw.len() ==> (#[trigger] raw[j])@.len() == dim
    &&& forall|j: int| 0 <= j < raw.len() ==> bounded((#[trigger] raw[j])@)
}

/// Validation of an embedding provider response for a batch of `expected`
/// texts against the configured dimension `dim`. A response of the wrong
/// count, wrong dimension, or out-of-range coordinates is rejected as
/// `MalformedResponse`; it is never padded or truncated to fit.
#[verifier::loop_isolation(false)]
pub fn validate_embed_response(expected: usize, dim: usize, raw: &Vec<Vec<i64>>) -> (r: Result<
    Vec<Embedding>,
    PipelineError,
>)
    ensures
        r is Ok <==> well_formed_response(raw@, expected as int, dim as int),
        r matches Ok(embs) ==> {
            &&& embs@.len() == expected
            &&& forall|j: int| 0 <= j < embs@.len() ==> (#[trigger] embs@[j])@ == raw@[j]@
            &&& forall|j: int| 0 <= j < embs@.len() ==> (#[trigger] embs@[j]).wf()
            &&& forall|j: int| 0 <= j < embs@.len() ==> (#[trigger] embs@[j])@.len() == dim
        },
        r matches Err(e) ==> e == PipelineError::MalformedResponse,
{
    if raw.len() != expected {
        return Err(PipelineError::MalformedResponse);
    }
    let mut out: Vec<Embedding> = Vec::new();
    let mut j: usize = 0;
    while j < raw.len()
        invariant
            0 <= j <= raw@.len(),
            raw@.len() == expected,
            out@.len() == j,
            forall|t: int| 0 <= t < j ==> (#[trigger] raw@[t])@.len() == dim,
            forall|t: int| 0 <= t < j ==> bounded((#[trigger] raw@[t])@),
            forall|t: int| 0 <= t < j ==> (#[trigger] out@[t])@ == raw@[t]@,
        decreases raw@.len() - j,
    {
        let v = &raw[j];
        if v.len() != dim {
            return Err(PipelineError::MalformedResponse);
        }
        let mut c: usize = 0;
        while c < v.len()
            invariant
                0 <= c <= v@.len(),
                forall|t: int| 0 <= t < c ==> -SCALE <= #[trigger] v@[t] <= SCALE,
            decreases v@.len() - c,
        {
            let x = v[c];
            if x < -SCALE || x > SCALE {
                return Err(PipelineError::MalformedResponse);
            }
            c = c + 1;
        }
        let components = v.clone();
        proof {
            assert(components@ =~= v@);
        }
        out.push(Embedding { components });
        j = j + 1;
    }
    Ok(out)
}

} // verus!
