//! Fixed-point embedding vectors and the distance measure that orders
//! nearest-neighbor retrieval.

use vstd::prelude::*;

verus! {

/// Number of coordinates in every embedding vector. Retrieval compares
/// vectors coordinate by coordinate, so every stored vector and every query
/// vector must carry exactly this many coordinates.
pub const EMBED_DIM: usize = 384;

/// Largest magnitude a single fixed-point coordinate may carry.
pub const COORD_LIMIT: i64 = 1_000_000;

/// Largest value one squared coordinate difference can reach:
/// `(2 * COORD_LIMIT)^2`.
pub const MAX_TERM: u64 = 4_000_000_000_000;

/// A coordinate sequence is a well-formed embedding when it has the fixed
/// dimension and every coordinate is in range.
pub open spec fn valid_coords(s: Seq<i64>) -> bool {
    &&& s.len() == EMBED_DIM
    &&& forall|i: int| 0 <= i < s.len() ==> -COORD_LIMIT <= #[trigger] s[i] <= COORD_LIMIT
}

/// Squared Euclidean distance between two coordinate sequences of equal
/// length; the store orders retrieval results by this measure.
pub open spec fn sq_dist(a: Seq<i64>, b: Seq<i64>) -> int
    decreases a.len(),
{
    if a.len() == 0 || b.len() == 0 {
        0
    } else {
        let d = a.last() - b.last();
        sq_dist(a.drop_last(), b.drop_last()) + d * d
    }
}

/// A fixed-dimension vector of fixed-point coordinates summarizing a piece
/// of text for similarity comparison. The model that turns text into
/// coordinates lives outside this crate; the crate only stores and compares
/// the coordinates it is handed.
#[derive(Debug)]
pub struct Embedding {
    coords: Vec<i64>,
}

impl View for Embedding {
    type V = Seq<i64>;

    closed spec fn view(&self) -> Seq<i64> {
        self.coords@
    }
}

impl Embedding {
    #[verifier::type_invariant]
    spec fn type_inv(self) -> bool {
        valid_coords(self.coords@)
    }

    /// Accepts exactly the coordinate vectors of the right dimension whose
    /// entries all lie within `COORD_LIMIT`.
    pub fn new(coords: Vec<i64>) -> (r: Option<Embedding>)
        ensures
            r is Some <==> valid_coords(coords@),
            r is Some ==> r->0@ == coords@,
    {
        if coords.len() != EMBED_DIM {
            return None;
        }
        let mut i: usize = 0;
        while i < coords.len()
            invariant
                0 <= i <= coords.len(),
                forall|j: int| 0 <= j < i ==> -COORD_LIMIT <= #[trigger] coords@[j] <= COORD_LIMIT,
            decreases coords.len() - i,
        {
            let c = coords[i];
            if c < -COORD_LIMIT || c > COORD_LIMIT {
                return None;
            }
            i += 1;
        }
        Some(Embedding { coords })
    }

    /// The coordinates, as a fresh vector.
    pub fn to_coords(&self) -> (v: Vec<i64>)
        ensures
            v@ == self@,
    {
        proof {
            use_type_invariant(self);
        }
        let mut coords: Vec<i64> = Vec::new();
        let mut i: usize = 0;
        while i < self.coords.len()
            invariant
                0 <= i <= self.coords.len(),
                coords@ == self.coords@.take(i as int),
                valid_coords(self.coords@),
            decreases self.coords.len() - i,
        {
            coords.push(self.coords[i]);
            proof {
                assert(coords@ =~= self.coords@.take(i + 1 as int));
            }
            i += 1;
        }
        proof {
            assert(coords@ =~= self.coords@);
        }
        coords
    }

    /// A fresh embedding carrying the same coordinates.
    pub fn duplicate(&self) -> (r: Embedding)
        ensures
            r@ == self@,
    {
        proof {
            use_type_invariant(self);
        }
        Embedding { coords: self.to_coords() }
    }
}

/// One squared difference of in-range coordinates stays within `MAX_TERM`.
proof fn lemma_term_bound(x: i64, y: i64)
    requires
        -COORD_LIMIT <= x <= COORD_LIMIT,
        -COORD_LIMIT <= y <= COORD_LIMIT,
    ensures
        0 <= (x - y) * (x - y) <= MAX_TERM,
{
    let d = x - y;
    assert(-2_000_000 <= d <= 2_000_000);
    assert(0 <= d * d <= 4_000_000_000_000) by (nonlinear_arith)
        requires
            -2_000_000 <= d <= 2_000_000,
    ;
}

/// Squared Euclidean distance between two embeddings. The bounds on
/// dimension and coordinates keep the whole computation inside `u64`.
pub fn distance(a: &Embedding, b: &Embedding) -> (d: u64)
    ensures
        d == sq_dist(a@, b@),
{
    proof {
        use_type_invariant(a);
        use_type_invariant(b);
    }
    let n = a.coords.len();
    let mut acc: u64 = 0;
    let mut i: usize = 0;
    while i < n
        invariant
            0 <= i <= n,
            n == a.coords.len(),
            n == b.coords.len(),
            valid_coords(a.coords@),
            valid_coords(b.coords@),
            acc == sq_dist(a.coords@.take(i as int), b.coords@.take(i as int)),
            acc <= i * MAX_TERM,
        decreases n - i,
    {
        let x = a.coords[i];
        let y = b.coords[i];
        proof {
            lemma_term_bound(x, y);
            assert((i + 1) * MAX_TERM == i * MAX_TERM + MAX_TERM) by (nonlinear_arith);
            assert(i * MAX_TERM <= 384 * MAX_TERM) by (nonlinear_arith)
                requires
                    0 <= i <= 384,
            ;
        }
        let diff: i64 = x - y;
        let term: i64 = diff * diff;
        proof {
            let ap = a.coords@.take(i + 1 as int);
            let bp = b.coords@.take(i + 1 as int);
            assert(ap.drop_last() =~= a.coords@.take(i as int));
            assert(bp.drop_last() =~= b.coords@.take(i as int));
            assert(ap.last() == a.coords@[i as int]);
            assert(bp.last() == b.coords@[i as int]);
        }
        acc = acc + (term as u64);
        i += 1;
    }
    proof {
        assert(a.coords@.take(n as int) =~= a.coords@);
        assert(b.coords@.take(n as int) =~= b.coords@);
    }
    acc
}

} // verus!
