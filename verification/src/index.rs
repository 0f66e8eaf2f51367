//! The in-memory embedding index.
//!
//! A record holds a document id, its text, and its embedding vector.
//! Vectors are fixed-point: each coordinate is an integer number of
//! millionths, so a provider coordinate `x` (typically in `[-1, 1]`) is
//! stored as `round(x * 1_000_000)`.  Similarity is the dot product of the
//! two fixed-point vectors — for the unit-length vectors embedding
//! providers return, the dot product ranks exactly as cosine similarity
//! does — and it is a pure function of the two vectors, so queries are
//! deterministic.  Ties in score are broken by ascending id, in
//! lexicographic order by code point.

use vstd::prelude::*;

use crate::text::lemma_lex_total;
use crate::text::lemma_lex_trans;
use crate::text::lex_lt;
use crate::text::str_eq;
use crate::text::str_lex_lt;

verus! {

/// Largest coordinate magnitude a stored vector may hold (one unit in
/// fixed-point, i.e. 1.0, times one million).
pub const COORD_LIMIT: i64 = 1_000_000;

/// Largest embedding dimension the index accepts.  With `COORD_LIMIT`
/// bounded coordinates, a dot product of such vectors stays well inside
/// `i64`.
pub const DIM_LIMIT: usize = 4096;

/// Mathematical model of a stored record.
#[verifier::ext_equal]
pub struct RecV {
    pub id: Seq<char>,
    pub text: Seq<char>,
    pub vector: Seq<i64>,
}

/// Mathematical model of one query result.
#[verifier::ext_equal]
pub struct HitV {
    pub id: Seq<char>,
    pub text: Seq<char>,
    pub score: int,
}

/// A stored document: id, text, and fixed-point embedding vector.
pub struct DocumentRecord {
    pub id: String,
    pub text: String,
    pub vector: Vec<i64>,
}

impl View for DocumentRecord {
    type V = RecV;

    open spec fn view(&self) -> RecV {
        RecV { id: self.id@, text: self.text@, vector: self.vector@ }
    }
}

/// One query result: the record's id and text, and its similarity score.
pub struct QueryHit {
    pub id: String,
    pub text: String,
    pub score: i64,
}

impl View for QueryHit {
    type V = HitV;

    open spec fn view(&self) -> HitV {
        HitV { id: self.id@, text: self.text@, score: self.score as int }
    }
}

pub open spec fn recs_view(s: Seq<DocumentRecord>) -> Seq<RecV> {
    s.map(|i: int, r: DocumentRecord| r@)
}

pub open spec fn hits_view(s: Seq<QueryHit>) -> Seq<HitV> {
    s.map(|i: int, h: QueryHit| h@)
}

/// The in-memory index: records keyed by id, all vectors of dimension
/// `dim`.
pub struct EmbeddingIndex {
    pub dim: usize,
    pub records: Vec<DocumentRecord>,
}

impl View for EmbeddingIndex {
    type V = Seq<RecV>;

    open spec fn view(&self) -> Seq<RecV> {
        recs_view(self.records@)
    }
}

/// A well-formed vector of dimension `dim`: coordinates bounded by
/// `COORD_LIMIT` in magnitude.
pub open spec fn wf_vector(v: Seq<i64>, dim: int) -> bool {
    v.len() == dim && forall|i: int| 0 <= i < v.len() ==> -COORD_LIMIT <= #[trigger] v[i] <= COORD_LIMIT
}

pub open spec fn distinct_ids(recs: Seq<RecV>) -> bool {
    forall|i: int, j: int| 0 <= i < j < recs.len() ==> recs[i].id != recs[j].id
}

pub open spec fn distinct_hit_ids(s: Seq<HitV>) -> bool {
    forall|i: int, j: int| 0 <= i < j < s.len() ==> s[i].id != s[j].id
}

/// Dot product of the first `i` coordinates.
pub open spec fn dot_prefix(a: Seq<i64>, b: Seq<i64>, i: int) -> int
    decreases i,
{
    if i <= 0 {
        0
    } else {
        dot_prefix(a, b, i - 1) + a[i - 1] * b[i - 1]
    }
}

/// Dot product of two vectors of equal length: the similarity measure of
/// this index.
pub open spec fn dot(a: Seq<i64>, b: Seq<i64>) -> int {
    dot_prefix(a, b, a.len() as int)
}

/// Similarity of `q` against one record.
pub open spec fn hit_of(r: RecV, q: Seq<i64>) -> HitV {
    HitV { id: r.id, text: r.text, score: dot(q, r.vector) }
}

/// Similarity of `q` against each record, in storage order.
pub open spec fn hits_of(recs: Seq<RecV>, q: Seq<i64>) -> Seq<HitV> {
    recs.map(|i: int, r: RecV| hit_of(r, q))
}

/// Strict ranking order on hits: higher score first; on equal scores,
/// ascending id.
pub open spec fn hit_before(a: HitV, b: HitV) -> bool {
    a.score > b.score || (a.score == b.score && lex_lt(a.id, b.id))
}

/// Ranking order weakened to allow equal ids: a total preorder.
pub open spec fn hit_before_eq(a: HitV, b: HitV) -> bool {
    a.score > b.score || (a.score == b.score && (a.id == b.id || lex_lt(a.id, b.id)))
}

/// Index of the hit ranked first among `s[from..]`; of equally ranked
/// hits, the earliest.
pub open spec fn best_in(s: Seq<HitV>, from: int) -> int
    recommends
        0 <= from < s.len(),
    decreases s.len() - from,
{
    if from + 1 >= s.len() {
        from
    } else {
        let b = best_in(s, from + 1);
        if hit_before(s[b], s[from]) {
            b
        } else {
            from
        }
    }
}

/// The hits of `s` in ranking order: repeatedly extract the first-ranked
/// hit.
pub open spec fn rank(s: Seq<HitV>) -> Seq<HitV>
    decreases s.len()
    via rank_decreases
{
    if s.len() == 0 {
        Seq::empty()
    } else {
        let b = best_in(s, 0);
        seq![s[b]] + rank(s.remove(b))
    }
}

#[via_fn]
proof fn rank_decreases(s: Seq<HitV>) {
    if s.len() > 0 {
        lemma_best_in_bounds(s, 0);
    }
}

/// What `query` returns: the first `k` (or all, if fewer) hits in ranking
/// order.
pub open spec fn spec_query(recs: Seq<RecV>, q: Seq<i64>, k: int) -> Seq<HitV> {
    let ranked = rank(hits_of(recs, q));
    ranked.take(
        if k <= ranked.len() {
            k
        } else {
            ranked.len() as int
        },
    )
}

pub proof fn lemma_best_in_bounds(s: Seq<HitV>, from: int)
    requires
        0 <= from < s.len(),
    ensures
        from <= best_in(s, from) < s.len(),
    decreases s.len() - from,
{
    if from + 1 < s.len() {
        lemma_best_in_bounds(s, from + 1);
    }
}

proof fn lemma_hit_before_eq_trans(a: HitV, b: HitV, c: HitV)
    requires
        hit_before_eq(a, b),
        hit_before_eq(b, c),
    ensures
        hit_before_eq(a, c),
{
    if a.score == b.score && b.score == c.score {
        if lex_lt(a.id, b.id) && lex_lt(b.id, c.id) {
            lemma_lex_trans(a.id, b.id, c.id);
        }
    }
}

/// When `b` is not strictly before `a`, then `a` is ranked no worse.
proof fn lemma_not_before_flip(a: HitV, b: HitV)
    requires
        !hit_before(b, a),
    ensures
        hit_before_eq(a, b),
{
    if a.score == b.score {
        lemma_lex_total(a.id, b.id);
    }
}

/// The first-ranked hit is ranked no worse than every hit of the range.
pub proof fn lemma_best_in_minimal(s: Seq<HitV>, from: int)
    requires
        0 <= from < s.len(),
    ensures
        forall|j: int| from <= j < s.len() ==> hit_before_eq(s[best_in(s, from)], #[trigger] s[j]),
    decreases s.len() - from,
{
    lemma_best_in_bounds(s, from);
    if from + 1 >= s.len() {
        assert(hit_before_eq(s[from], s[from]));
    } else {
        let b = best_in(s, from + 1);
        lemma_best_in_minimal(s, from + 1);
        lemma_best_in_bounds(s, from + 1);
        if hit_before(s[b], s[from]) {
            assert forall|j: int| from <= j < s.len() implies hit_before_eq(
                s[best_in(s, from)],
                #[trigger] s[j],
            ) by {
                if j == from {
                    assert(hit_before_eq(s[b], s[from]));
                }
            }
        } else {
            lemma_not_before_flip(s[from], s[b]);
            assert forall|j: int| from <= j < s.len() implies hit_before_eq(
                s[best_in(s, from)],
                #[trigger] s[j],
            ) by {
                if j > from {
                    lemma_hit_before_eq_trans(s[from], s[b], s[j]);
                } else {
                    assert(hit_before_eq(s[from], s[from]));
                }
            }
        }
    }
}

pub proof fn lemma_rank_len(s: Seq<HitV>)
    ensures
        rank(s).len() == s.len(),
    decreases s.len(),
{
    if s.len() > 0 {
        lemma_best_in_bounds(s, 0);
        lemma_rank_len(s.remove(best_in(s, 0)));
    }
}

/// Removing one element keeps the others and distinctness of ids.
proof fn lemma_remove_keeps(s: Seq<HitV>, b: int)
    requires
        0 <= b < s.len(),
    ensures
        forall|x: HitV| s.remove(b).contains(x) ==> s.contains(x),
        distinct_hit_ids(s) ==> distinct_hit_ids(s.remove(b)),
{
    let t = s.remove(b);
    assert forall|x: HitV| t.contains(x) implies s.contains(x) by {
        let i = choose|i: int| 0 <= i < t.len() && t[i] == x;
        if i < b {
            assert(s[i] == x);
        } else {
            assert(s[i + 1] == x);
        }
    }
    if distinct_hit_ids(s) {
        assert forall|i: int, j: int| 0 <= i < j < t.len() implies t[i].id != t[j].id by {
            let si: int = if i < b {
                i
            } else {
                i + 1
            };
            let sj: int = if j < b {
                j
            } else {
                j + 1
            };
            assert(t[i] == s[si] && t[j] == s[sj]);
        }
    }
}

/// On hits with pairwise distinct ids, ranking yields a strictly sorted
/// sequence — ties in score come out in ascending id order — whose
/// elements all come from `s`.
pub proof fn lemma_rank_sorted(s: Seq<HitV>)
    requires
        distinct_hit_ids(s),
    ensures
        rank(s).len() == s.len(),
        forall|x: HitV| rank(s).contains(x) ==> s.contains(x),
        distinct_hit_ids(rank(s)),
        forall|i: int, j: int|
            0 <= i < j < rank(s).len() ==> hit_before(#[trigger] rank(s)[i], #[trigger] rank(s)[j]),
    decreases s.len(),
{
    lemma_rank_len(s);
    if s.len() > 0 {
        let b = best_in(s, 0);
        lemma_best_in_bounds(s, 0);
        lemma_best_in_minimal(s, 0);
        let t = s.remove(b);
        lemma_remove_keeps(s, b);
        lemma_rank_sorted(t);
        let r = rank(s);
        assert(r == seq![s[b]] + rank(t));
        assert(r[0] == s[b]);
        assert forall|i: int| 1 <= i < r.len() implies hit_before(r[0], #[trigger] r[i]) && r[0].id
            != r[i].id by {
            assert(r[i] == rank(t)[i - 1]);
            let x = r[i];
            assert(rank(t).contains(x));
            assert(t.contains(x));
            let ti = choose|ti: int| 0 <= ti < t.len() && t[ti] == x;
            let pos: int = if ti < b {
                ti
            } else {
                ti + 1
            };
            assert(s[pos] == x);
            assert(pos != b);
            assert(s[b].id != x.id);
            assert(hit_before_eq(s[b], s[pos]));
        }
        assert forall|i: int, j: int| 0 <= i < j < r.len() implies hit_before(
            #[trigger] r[i],
            #[trigger] r[j],
        ) by {
            if i > 0 {
                assert(r[i] == rank(t)[i - 1] && r[j] == rank(t)[j - 1]);
            }
        }
        assert forall|i: int, j: int| 0 <= i < j < r.len() implies #[trigger] r[i].id
            != #[trigger] r[j].id by {
            if i > 0 {
                assert(r[i] == rank(t)[i - 1] && r[j] == rank(t)[j - 1]);
            }
        }
    }
}

/// Same stored records, same query vector, same `k`: the ranked result is
/// the same sequence — queries are deterministic.
pub proof fn lemma_query_deterministic(
    recs: Seq<RecV>,
    q: Seq<i64>,
    k: int,
    r1: Seq<HitV>,
    r2: Seq<HitV>,
)
    requires
        r1 == spec_query(recs, q, k),
        r2 == spec_query(recs, q, k),
    ensures
        r1 == r2,
{
}

/// First index whose record has the id, or `recs.len()`.
pub open spec fn find_from(recs: Seq<RecV>, id: Seq<char>, i: int) -> int
    decreases recs.len() - i,
{
    if i < 0 || i >= recs.len() {
        recs.len() as int
    } else if recs[i].id == id {
        i
    } else {
        find_from(recs, id, i + 1)
    }
}

/// What `ingest` does to the stored records: overwrite the record with the
/// same id, or append a new one.
pub open spec fn spec_ingest(recs: Seq<RecV>, r: RecV) -> Seq<RecV> {
    let j = find_from(recs, r.id, 0);
    if j < recs.len() {
        recs.update(j, r)
    } else {
        recs.push(r)
    }
}

pub proof fn lemma_find_char(recs: Seq<RecV>, id: Seq<char>, i: int)
    requires
        0 <= i <= recs.len(),
    ensures
        i <= find_from(recs, id, i) <= recs.len(),
        find_from(recs, id, i) < recs.len() ==> recs[find_from(recs, id, i)].id == id,
        forall|j: int| i <= j < find_from(recs, id, i) ==> (#[trigger] recs[j].id) != id,
    decreases recs.len() - i,
{
    if i < recs.len() && recs[i].id != id {
        lemma_find_char(recs, id, i + 1);
    }
}

/// `find_from` returns the position of the first record with the id.
proof fn lemma_find_is(recs: Seq<RecV>, id: Seq<char>, i: int, j: int)
    requires
        0 <= i <= j < recs.len(),
        recs[j].id == id,
        forall|l: int| i <= l < j ==> (#[trigger] recs[l].id) != id,
    ensures
        find_from(recs, id, i) == j,
    decreases j - i,
{
    if i < j {
        lemma_find_is(recs, id, i + 1, j);
    }
}

/// Ingesting into records with distinct ids leaves exactly one record with
/// the ingested id — the new one — and keeps ids distinct and vectors
/// well-formed.
pub proof fn lemma_ingest_props(recs: Seq<RecV>, r: RecV, dim: int)
    requires
        distinct_ids(recs),
        forall|i: int| 0 <= i < recs.len() ==> wf_vector((#[trigger] recs[i]).vector, dim),
        wf_vector(r.vector, dim),
    ensures
        distinct_ids(spec_ingest(recs, r)),
        forall|i: int|
            0 <= i < spec_ingest(recs, r).len() ==> wf_vector(
                (#[trigger] spec_ingest(recs, r)[i]).vector,
                dim,
            ),
        find_from(spec_ingest(recs, r), r.id, 0) < spec_ingest(recs, r).len(),
        spec_ingest(recs, r)[find_from(spec_ingest(recs, r), r.id, 0)] == r,
        forall|i: int|
            0 <= i < spec_ingest(recs, r).len() && i != find_from(spec_ingest(recs, r), r.id, 0)
                ==> (#[trigger] spec_ingest(recs, r)[i]).id != r.id,
{
    let j0 = find_from(recs, r.id, 0);
    lemma_find_char(recs, r.id, 0);
    let res = spec_ingest(recs, r);
    if j0 < recs.len() {
        assert(res == recs.update(j0, r));
        lemma_find_is(res, r.id, 0, j0);
        assert forall|i: int| 0 <= i < res.len() && i != j0 implies (#[trigger] res[i]).id
            != r.id by {
            assert(res[i] == recs[i]);
            if recs[i].id == r.id {
                assert(recs[i].id == recs[j0].id);
            }
        }
    } else {
        assert(res == recs.push(r));
        assert(res[recs.len() as int] == r);
        lemma_find_is(res, r.id, 0, recs.len() as int);
    }
}

/// Ingesting the same id twice is the same as ingesting only the second
/// record: the last write wins.
pub proof fn lemma_ingest_last_write_wins(recs: Seq<RecV>, a: RecV, b: RecV)
    requires
        distinct_ids(recs),
        a.id == b.id,
    ensures
        spec_ingest(spec_ingest(recs, a), b) == spec_ingest(recs, b),
{
    let j0 = find_from(recs, a.id, 0);
    lemma_find_char(recs, a.id, 0);
    if j0 < recs.len() {
        let r1 = recs.update(j0, a);
        assert(spec_ingest(recs, a) == r1);
        lemma_find_is(r1, b.id, 0, j0);
        assert(spec_ingest(r1, b) == r1.update(j0, b));
        assert(r1.update(j0, b) =~= recs.update(j0, b));
        lemma_find_is(recs, b.id, 0, j0);
    } else {
        let r1 = recs.push(a);
        assert(spec_ingest(recs, a) == r1);
        assert(r1[recs.len() as int].id == b.id);
        lemma_find_is(r1, b.id, 0, recs.len() as int);
        assert(spec_ingest(r1, b) == r1.update(recs.len() as int, b));
        assert(r1.update(recs.len() as int, b) =~= recs.push(b));
        assert(spec_ingest(recs, b) == recs.push(b));
    }
}

/// First index of `v` whose record has id `id`, or `v.len()`.
fn find_index(v: &Vec<DocumentRecord>, id: &String) -> (r: usize)
    ensures
        r as int == find_from(recs_view(v@), id@, 0),
        r <= v@.len(),
{
    let ghost recs = recs_view(v@);
    let n = v.len();
    let mut i: usize = 0;
    while i < n
        invariant
            recs == recs_view(v@),
            n == v@.len(),
            n == recs.len(),
            0 <= i <= n,
            find_from(recs, id@, 0) == find_from(recs, id@, i as int),
        decreases n - i,
    {
        if str_eq(v[i].id.as_str(), id.as_str()) {
            proof {
                assert(recs[i as int].id == id@);
            }
            return i;
        }
        proof {
            assert(recs[i as int].id != id@);
        }
        i = i + 1;
    }
    n
}

impl EmbeddingIndex {
    /// Well-formed index: bounded dimension, distinct ids, every vector of
    /// dimension `dim` with bounded coordinates.
    pub open spec fn wf(&self) -> bool {
        &&& self.dim <= DIM_LIMIT
        &&& distinct_ids(self@)
        &&& forall|i: int|
            0 <= i < self@.len() ==> wf_vector((#[trigger] self@[i]).vector, self.dim as int)
    }

    /// An empty index for vectors of dimension `dim`.
    pub fn new(dim: usize) -> (r: EmbeddingIndex)
        requires
            dim <= DIM_LIMIT,
        ensures
            r.wf(),
            r@ == Seq::<RecV>::empty(),
            r.dim == dim,
    {
        let r = EmbeddingIndex { dim, records: Vec::new() };
        proof {
            assert(r@ =~= Seq::<RecV>::empty());
        }
        r
    }

    /// Number of stored records.
    pub fn len(&self) -> (r: usize)
        ensures
            r == self@.len(),
    {
        self.records.len()
    }

    /// Stores `(id, text, vector)`.  A record with the same id is
    /// overwritten (last write wins); otherwise the record is appended.
    pub fn ingest(&mut self, id: String, text: String, vector: Vec<i64>)
        requires
            old(self).wf(),
            wf_vector(vector@, old(self).dim as int),
        ensures
            final(self).wf(),
            final(self).dim == old(self).dim,
            final(self)@ == spec_ingest(
                old(self)@,
                RecV { id: id@, text: text@, vector: vector@ },
            ),
    {
        let ghost rv = RecV { id: id@, text: text@, vector: vector@ };
        let ghost orig = self@;
        proof {
            lemma_ingest_props(orig, rv, self.dim as int);
        }
        let found = find_index(&self.records, &id);
        let rec = DocumentRecord { id, text, vector };
        if found < self.records.len() {
            self.records.remove(found);
            self.records.insert(found, rec);
            proof {
                assert(self@ =~= orig.update(found as int, rv));
            }
        } else {
            self.records.push(rec);
            proof {
                assert(self@ =~= orig.push(rv));
            }
        }
    }

    /// The `min(k, len)` stored records most similar to `query_vec`, best
    /// first, ties in ascending id order.  An empty index yields an empty
    /// result: that is not an error.
    pub fn query(&self, query_vec: &Vec<i64>, k: usize) -> (r: Vec<QueryHit>)
        requires
            self.wf(),
            wf_vector(query_vec@, self.dim as int),
        ensures
            hits_view(r@) == spec_query(self@, query_vec@, k as int),
            r@.len() == if k as int <= self@.len() {
                k as int
            } else {
                self@.len() as int
            },
            self@.len() == 0 ==> r@ == Seq::<QueryHit>::empty(),
            forall|i: int, j: int|
                0 <= i < j < r@.len() ==> hit_before(
                    #[trigger] hits_view(r@)[i],
                    #[trigger] hits_view(r@)[j],
                ),
    {
        let ghost q = query_vec@;
        let ghost all = hits_of(self@, q);
        let n = self.records.len();
        let mut rest: Vec<QueryHit> = Vec::new();
        let mut idx: usize = 0;
        while idx < n
            invariant
                self.wf(),
                wf_vector(q, self.dim as int),
                q == query_vec@,
                n == self.records@.len(),
                n == self@.len(),
                0 <= idx <= n,
                rest@.len() == idx,
                hits_view(rest@) =~= hits_of(self@, q).take(idx as int),
            decreases n - idx,
        {
            let rec = &self.records[idx];
            proof {
                assert(self@[idx as int] == rec@);
                assert(wf_vector(self@[idx as int].vector, self.dim as int));
            }
            let score = dot_product(query_vec, &rec.vector);
            let h = QueryHit { id: rec.id.clone(), text: rec.text.clone(), score };
            proof {
                assert(h@ =~= hit_of(self@[idx as int], q));
            }
            rest.push(h);
            proof {
                assert(hits_view(rest@) =~= hits_of(self@, q).take(idx as int + 1));
            }
            idx = idx + 1;
        }
        proof {
            assert(hits_of(self@, q).take(n as int) =~= all);
            assert forall|i: int, j: int| 0 <= i < j < all.len() implies (#[trigger] all[i]).id != (
            #[trigger] all[j]).id by {
                assert(all[i].id == self@[i].id && all[j].id == self@[j].id);
            }
            lemma_rank_sorted(all);
        }
        let kk = if k < n {
            k
        } else {
            n
        };
        let mut out: Vec<QueryHit> = Vec::new();
        let mut c: usize = 0;
        proof {
            assert(hits_view(out@) =~= Seq::<HitV>::empty());
            assert(hits_view(out@) + rank(hits_view(rest@)) =~= rank(all));
        }
        while c < kk
            invariant
                kk <= n,
                0 <= c <= kk,
                out@.len() == c,
                rest@.len() == n - c,
                all.len() == n,
                distinct_hit_ids(all),
                rank(all) == hits_view(out@) + rank(hits_view(rest@)),
            decreases kk - c,
        {
            let b = best_of(&rest);
            let ghost rv = hits_view(rest@);
            let ghost ov = hits_view(out@);
            let h = rest.remove(b);
            proof {
                assert(h@ == rv[b as int]);
                assert(hits_view(rest@) =~= rv.remove(b as int));
                assert(rank(rv) == seq![rv[b as int]] + rank(rv.remove(b as int)));
            }
            out.push(h);
            proof {
                assert(hits_view(out@) =~= ov.push(h@));
                assert(ov.push(h@) + rank(rv.remove(b as int)) =~= ov + (seq![rv[b as int]]
                    + rank(rv.remove(b as int))));
            }
            c = c + 1;
        }
        proof {
            lemma_rank_len(hits_view(rest@));
            lemma_rank_len(all);
            assert(spec_query(self@, q, k as int) =~= hits_view(out@));
            assert forall|i: int, j: int| 0 <= i < j < out@.len() implies hit_before(
                #[trigger] hits_view(out@)[i],
                #[trigger] hits_view(out@)[j],
            ) by {
                assert(hits_view(out@)[i] == rank(all)[i] && hits_view(out@)[j] == rank(all)[j]);
            }
            if self@.len() == 0 {
                assert(out@ =~= Seq::<QueryHit>::empty());
            }
        }
        out
    }
}

/// Dot product of two bounded vectors of equal length; cannot overflow.
pub fn dot_product(a: &Vec<i64>, b: &Vec<i64>) -> (r: i64)
    requires
        a@.len() == b@.len(),
        a@.len() <= DIM_LIMIT,
        forall|i: int| 0 <= i < a@.len() ==> -COORD_LIMIT <= #[trigger] a@[i] <= COORD_LIMIT,
        forall|i: int| 0 <= i < b@.len() ==> -COORD_LIMIT <= #[trigger] b@[i] <= COORD_LIMIT,
    ensures
        r as int == dot(a@, b@),
{
    let n = a.len();
    let mut acc: i64 = 0;
    let mut i: usize = 0;
    while i < n
        invariant
            n == a@.len(),
            n == b@.len(),
            n <= DIM_LIMIT,
            0 <= i <= n,
            forall|j: int| 0 <= j < n ==> -COORD_LIMIT <= #[trigger] a@[j] <= COORD_LIMIT,
            forall|j: int| 0 <= j < n ==> -COORD_LIMIT <= #[trigger] b@[j] <= COORD_LIMIT,
            acc as int == dot_prefix(a@, b@, i as int),
            -(i as int) * 1000000000000 <= acc as int <= (i as int) * 1000000000000,
        decreases n - i,
    {
        let x = a[i];
        let y = b[i];
        proof {
            assert(-1000000000000 <= (x as int) * (y as int) <= 1000000000000) by (nonlinear_arith)
                requires
                    -1000000 <= x as int <= 1000000,
                    -1000000 <= y as int <= 1000000,
            ;
        }
        let p = x * y;
        acc = acc + p;
        i = i + 1;
    }
    acc
}

/// Index of the first-ranked hit of a non-empty sequence.
fn best_of(v: &Vec<QueryHit>) -> (r: usize)
    requires
        v@.len() > 0,
    ensures
        r < v@.len(),
        r as int == best_in(hits_view(v@), 0),
{
    let ghost hv = hits_view(v@);
    let n = v.len();
    let mut b: usize = n - 1;
    let mut i: usize = n - 1;
    while i > 0
        invariant
            n == v@.len(),
            n == hv.len(),
            hv == hits_view(v@),
            0 <= i <= n - 1,
            i <= b < n,
            b as int == best_in(hv, i as int),
        decreases i,
    {
        i = i - 1;
        if !hit_before_exec(&v[b], &v[i]) {
            b = i;
        }
    }
    b
}

/// Executable form of the ranking order.
fn hit_before_exec(a: &QueryHit, b: &QueryHit) -> (r: bool)
    ensures
        r == hit_before(a@, b@),
{
    if a.score > b.score {
        true
    } else if a.score == b.score {
        str_lex_lt(a.id.as_str(), b.id.as_str())
    } else {
        false
    }
}

} // verus!
