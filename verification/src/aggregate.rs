//! The reduction of all opening queries to a single one.
//!
//! Queries that share an evaluation point are first merged into one
//! commitment and one evaluation per query row. The rows are then combined
//! across their points into the evaluation of an aggregation polynomial, and
//! finally everything is folded into one commitment and one claimed value.

use crate::circuit::{AdviceWire, EvaluationDomain, FixedWire, Rotation, SRS};
use crate::curve::CurveAffine;
use crate::error::Malformed;
use crate::field::{add_mod, div_mod, divide, mul_mod, pow_mod, sub_mod, values, PrimeField};
use crate::plonk::Proof;
use crate::polycommit::OpeningScheme;
use vstd::prelude::*;

verus! {

/// What one query adds to a query row.
pub struct Contribution<C> {
    pub row: int,
    pub commitment: C,
    pub eval: int,
}

/// A wire that is known by its index.
pub trait WireIndex: Sized + Copy {
    spec fn position(&self) -> usize;

    fn index(&self) -> (i: usize)
        ensures
            i == self.position(),
    ;
}

impl WireIndex for AdviceWire {
    open spec fn position(&self) -> usize {
        self.0
    }

    fn index(&self) -> (i: usize) {
        self.0
    }
}

impl WireIndex for FixedWire {
    open spec fn position(&self) -> usize {
        self.0
    }

    fn index(&self) -> (i: usize) {
        self.0
    }
}

/// `i` is the first row with the rotation `at`.
pub open spec fn is_row_of(rows: Seq<Rotation>, at: Rotation, i: int) -> bool {
    &&& 0 <= i < rows.len()
    &&& rows[i] == at
    &&& forall|j: int| 0 <= j < i ==> rows[j] != at
}

/// The query row of the rotation `at`, if it has one.
pub open spec fn row_of(rows: Seq<Rotation>, at: Rotation) -> Option<int> {
    if exists|i: int| is_row_of(rows, at, i) {
        Some(choose|i: int| is_row_of(rows, at, i))
    } else {
        None
    }
}

/// A rotation has at most one query row.
pub proof fn lemma_row_of(rows: Seq<Rotation>, at: Rotation, i: int)
    requires
        is_row_of(rows, at, i),
    ensures
        row_of(rows, at) == Some(i),
{
    let j = choose|j: int| is_row_of(rows, at, j);
    assert(is_row_of(rows, at, j));
    if j < i {
        assert(rows[j] != at);
    }
    if i < j {
        assert(rows[i] != at);
    }
}

/// The wire indices and rotations of a list of queries.
pub open spec fn queries_of<W: WireIndex>(queries: Seq<(W, Rotation)>) -> Seq<(int, Rotation)> {
    Seq::new(queries.len(), |i: int| (queries[i].0.position() as int, queries[i].1))
}

/// The queries of the quotient chunks: chunk `i` is wire `i`, at the
/// principal point. A chunk counts where it has a commitment and an
/// evaluation.
pub open spec fn chunk_queries(commitments: int, evals: int) -> Seq<(int, Rotation)> {
    Seq::new(
        (if commitments <= evals {
            commitments
        } else {
            evals
        }) as nat,
        |i: int| (i, Rotation(0)),
    )
}

/// What the query number `index`, of the wire `wire` at the rotation `at`,
/// contributes, or why it cannot be resolved.
pub open spec fn contribution<C: CurveAffine>(
    rows: Seq<Rotation>,
    wire: int,
    at: Rotation,
    index: int,
    commitments: Seq<C>,
    evals: Seq<int>,
) -> Result<Contribution<C>, Malformed> {
    match row_of(rows, at) {
        None => Err(Malformed::QueryRowOutOfRange),
        Some(row) => if 0 <= wire < commitments.len() && 0 <= index < evals.len() {
            Ok(Contribution { row, commitment: commitments[wire], eval: evals[index] })
        } else {
            Err(Malformed::IndexOutOfRange)
        },
    }
}

/// The contributions of a list of queries in order, or the error of the
/// first query that cannot be resolved.
pub open spec fn contributions<C: CurveAffine>(
    rows: Seq<Rotation>,
    queries: Seq<(int, Rotation)>,
    commitments: Seq<C>,
    evals: Seq<int>,
) -> Result<Seq<Contribution<C>>, Malformed>
    decreases queries.len(),
{
    if queries.len() == 0 {
        Ok(Seq::empty())
    } else {
        match contributions(rows, queries.drop_last(), commitments, evals) {
            Err(e) => Err(e),
            Ok(cs) => match contribution(
                rows,
                queries.last().0,
                queries.last().1,
                queries.len() - 1,
                commitments,
                evals,
            ) {
                Err(e) => Err(e),
                Ok(c) => Ok(cs.push(c)),
            },
        }
    }
}

/// A query row after one more contribution: the first one seeds the row,
/// each later one is added to `x` times what the row held.
pub open spec fn merged<C: CurveAffine>(slot: Option<(C, int)>, c: Contribution<C>, x: int) -> (
    C,
    int,
) {
    match slot {
        None => (c.commitment, c.eval),
        Some(acc) => (
            acc.0.scaled(x).sum(c.commitment),
            add_mod(mul_mod(acc.1, x, C::Scalar::modulus()), c.eval, C::Scalar::modulus()),
        ),
    }
}

/// The query row `row` after the contributions `cs`, where it held `start`
/// before: those of `cs` that belong to the row are merged into it in order.
pub open spec fn accumulate<C: CurveAffine>(
    start: Option<(C, int)>,
    cs: Seq<Contribution<C>>,
    row: int,
    x: int,
) -> Option<(C, int)>
    decreases cs.len(),
{
    if cs.len() == 0 {
        start
    } else {
        let before = accumulate(start, cs.drop_last(), row, x);
        if cs.last().row == row {
            Some(merged(before, cs.last(), x))
        } else {
            before
        }
    }
}

/// All `len` query rows after the contributions `cs`: each row holds the
/// combination of its own contributions, and nothing where it has none.
pub open spec fn merged_rows<C: CurveAffine>(cs: Seq<Contribution<C>>, len: nat, x: int) -> Seq<
    Option<(C, int)>,
> {
    Seq::new(len, |row: int| accumulate(None, cs, row, x))
}

/// The commitment and the representative of the evaluation that a row holds.
pub open spec fn slot_view<C: CurveAffine>(slot: Option<(C, C::Scalar)>) -> Option<(C, int)> {
    match slot {
        None => None,
        Some(acc) => Some((acc.0, acc.1.value())),
    }
}

/// Accumulating two lists one after the other is accumulating their
/// concatenation.
pub proof fn lemma_accumulate_concat<C: CurveAffine>(
    start: Option<(C, int)>,
    a: Seq<Contribution<C>>,
    b: Seq<Contribution<C>>,
    row: int,
    x: int,
)
    ensures
        accumulate(accumulate(start, a, row, x), b, row, x) == accumulate(start, a + b, row, x),
    decreases b.len(),
{
    if b.len() == 0 {
        assert(a + b == a);
    } else {
        lemma_accumulate_concat(start, a, b.drop_last(), row, x);
        assert((a + b).drop_last() == a + b.drop_last());
        assert((a + b).last() == b.last());
    }
}

/// A failure on a prefix of the queries is the failure of the whole list.
pub proof fn lemma_contributions_prefix<C: CurveAffine>(
    rows: Seq<Rotation>,
    queries: Seq<(int, Rotation)>,
    commitments: Seq<C>,
    evals: Seq<int>,
    k: int,
)
    requires
        0 <= k <= queries.len(),
        contributions(rows, queries.take(k), commitments, evals) is Err,
    ensures
        contributions(rows, queries, commitments, evals) == contributions(
            rows,
            queries.take(k),
            commitments,
            evals,
        ),
    decreases queries.len() - k,
{
    if k < queries.len() {
        assert(queries.take(k + 1).drop_last() == queries.take(k));
        lemma_contributions_prefix(rows, queries, commitments, evals, k + 1);
    } else {
        assert(queries.take(k) == queries);
    }
}

/// Finds the query row of a rotation.
pub fn find_row(rows: &Vec<Rotation>, at: Rotation) -> (r: Option<usize>)
    ensures
        match r {
            Some(i) => row_of(rows@, at) == Some(i as int),
            None => row_of(rows@, at) is None,
        },
{
    let mut i: usize = 0;
    while i < rows.len()
        invariant
            i <= rows.len(),
            forall|j: int| 0 <= j < i ==> rows@[j] != at,
        decreases rows.len() - i,
    {
        if rows[i].0 == at.0 {
            proof {
                lemma_row_of(rows@, at, i as int);
            }
            return Some(i);
        }
        i += 1;
    }
    None
}

/// Merges one query into its row.
fn merge_query<C: CurveAffine>(
    acc: &mut Vec<Option<(C, C::Scalar)>>,
    rows: &Vec<Rotation>,
    wire: usize,
    at: Rotation,
    index: usize,
    commitments: &Vec<C>,
    evals: &Vec<C::Scalar>,
    x: &C::Scalar,
) -> (r: Result<(), Malformed>)
    requires
        old(acc).len() == rows.len(),
    ensures
        final(acc).len() == rows.len(),
        match contribution(rows@, wire as int, at, index as int, commitments@, values(evals@)) {
            Err(e) => r == Err::<(), Malformed>(e) && final(acc)@ == old(acc)@,
            Ok(c) => r is Ok && forall|row: int|
                0 <= row < rows.len() ==> slot_view(#[trigger] final(acc)@[row]) == (if c.row
                    == row {
                    Some(merged(slot_view(old(acc)@[row]), c, x.value()))
                } else {
                    slot_view(old(acc)@[row])
                }),
        },
{
    let row = match find_row(rows, at) {
        None => {
            return Err(Malformed::QueryRowOutOfRange);
        },
        Some(row) => row,
    };
    if wire >= commitments.len() || index >= evals.len() {
        return Err(Malformed::IndexOutOfRange);
    }
    let slot = match acc[row] {
        None => (commitments[wire], evals[index]),
        Some(held) => (
            held.0.scale(x).add(&commitments[wire]),
            held.1.mul(x).add(&evals[index]),
        ),
    };
    acc.set(row, Some(slot));
    Ok(())
}

/// Merges a list of queries into their rows, in order.
fn merge_queries<C: CurveAffine, W: WireIndex>(
    acc: &mut Vec<Option<(C, C::Scalar)>>,
    rows: &Vec<Rotation>,
    queries: &Vec<(W, Rotation)>,
    commitments: &Vec<C>,
    evals: &Vec<C::Scalar>,
    x: &C::Scalar,
) -> (r: Result<(), Malformed>)
    requires
        old(acc).len() == rows.len(),
    ensures
        final(acc).len() == rows.len(),
        match contributions(rows@, queries_of(queries@), commitments@, values(evals@)) {
            Err(e) => r == Err::<(), Malformed>(e),
            Ok(cs) => r is Ok && forall|row: int|
                0 <= row < rows.len() ==> slot_view(#[trigger] final(acc)@[row]) == accumulate(
                    slot_view(old(acc)@[row]),
                    cs,
                    row,
                    x.value(),
                ),
        },
{
    let ghost qs = queries_of(queries@);
    let mut i: usize = 0;
    while i < queries.len()
        invariant
            i <= queries.len(),
            acc.len() == rows.len(),
            qs == queries_of(queries@),
            contributions(rows@, qs.take(i as int), commitments@, values(evals@)) is Ok,
            forall|row: int|
                0 <= row < rows.len() ==> slot_view(#[trigger] acc@[row]) == accumulate(
                    slot_view(old(acc)@[row]),
                    contributions(rows@, qs.take(i as int), commitments@, values(evals@))->Ok_0,
                    row,
                    x.value(),
                ),
        decreases queries.len() - i,
    {
        let ghost before = acc@;
        let ghost done = contributions(
            rows@,
            qs.take(i as int),
            commitments@,
            values(evals@),
        )->Ok_0;
        proof {
            assert(qs.take(i + 1).drop_last() == qs.take(i as int));
        }
        match merge_query(acc, rows, queries[i].0.index(), queries[i].1, i, commitments, evals, x) {
            Err(e) => {
                proof {
                    lemma_contributions_prefix(rows@, qs, commitments@, values(evals@), i + 1);
                }
                return Err(e);
            },
            Ok(_) => {
                proof {
                    let next = contributions(
                        rows@,
                        qs.take(i + 1),
                        commitments@,
                        values(evals@),
                    )->Ok_0;
                    assert(next.drop_last() == done);
                    assert forall|row: int| 0 <= row < rows.len() implies slot_view(
                        #[trigger] acc@[row],
                    ) == accumulate(slot_view(old(acc)@[row]), next, row, x.value()) by {
                        assert(slot_view(before[row]) == accumulate(
                            slot_view(old(acc)@[row]),
                            done,
                            row,
                            x.value(),
                        ));
                    }
                }
            },
        }
        i += 1;
    }
    proof {
        assert(qs.take(i as int) == qs);
    }
    Ok(())
}

/// Merges the queries of the quotient chunks into the row of the principal
/// point, in order.
fn merge_chunks<C: CurveAffine>(
    acc: &mut Vec<Option<(C, C::Scalar)>>,
    rows: &Vec<Rotation>,
    commitments: &Vec<C>,
    evals: &Vec<C::Scalar>,
    x: &C::Scalar,
) -> (r: Result<(), Malformed>)
    requires
        old(acc).len() == rows.len(),
    ensures
        final(acc).len() == rows.len(),
        match contributions(
            rows@,
            chunk_queries(commitments.len() as int, evals.len() as int),
            commitments@,
            values(evals@),
        ) {
            Err(e) => r == Err::<(), Malformed>(e),
            Ok(cs) => r is Ok && forall|row: int|
                0 <= row < rows.len() ==> slot_view(#[trigger] final(acc)@[row]) == accumulate(
                    slot_view(old(acc)@[row]),
                    cs,
                    row,
                    x.value(),
                ),
        },
{
    let ghost qs = chunk_queries(commitments.len() as int, evals.len() as int);
    let count = if commitments.len() <= evals.len() {
        commitments.len()
    } else {
        evals.len()
    };
    let mut i: usize = 0;
    while i < count
        invariant
            i <= count,
            count == qs.len(),
            acc.len() == rows.len(),
            qs == chunk_queries(commitments.len() as int, evals.len() as int),
            contributions(rows@, qs.take(i as int), commitments@, values(evals@)) is Ok,
            forall|row: int|
                0 <= row < rows.len() ==> slot_view(#[trigger] acc@[row]) == accumulate(
                    slot_view(old(acc)@[row]),
                    contributions(rows@, qs.take(i as int), commitments@, values(evals@))->Ok_0,
                    row,
                    x.value(),
                ),
        decreases count - i,
    {
        let ghost before = acc@;
        let ghost done = contributions(
            rows@,
            qs.take(i as int),
            commitments@,
            values(evals@),
        )->Ok_0;
        proof {
            assert(qs.take(i + 1).drop_last() == qs.take(i as int));
        }
        match merge_query(acc, rows, i, Rotation(0), i, commitments, evals, x) {
            Err(e) => {
                proof {
                    lemma_contributions_prefix(rows@, qs, commitments@, values(evals@), i + 1);
                }
                return Err(e);
            },
            Ok(_) => {
                proof {
                    let next = contributions(
                        rows@,
                        qs.take(i + 1),
                        commitments@,
                        values(evals@),
                    )->Ok_0;
                    assert(next.drop_last() == done);
                    assert forall|row: int| 0 <= row < rows.len() implies slot_view(
                        #[trigger] acc@[row],
                    ) == accumulate(slot_view(old(acc)@[row]), next, row, x.value()) by {
                        assert(slot_view(before[row]) == accumulate(
                            slot_view(old(acc)@[row]),
                            done,
                            row,
                            x.value(),
                        ));
                    }
                }
            },
        }
        i += 1;
    }
    proof {
        assert(qs.take(i as int) == qs);
    }
    Ok(())
}

/// A list of `len` rows that hold nothing yet.
fn empty_rows<C: CurveAffine>(len: usize) -> (acc: Vec<Option<(C, C::Scalar)>>)
    ensures
        acc.len() == len,
        forall|row: int| 0 <= row < len ==> #[trigger] acc@[row] is None,
{
    let mut acc: Vec<Option<(C, C::Scalar)>> = Vec::new();
    let mut i: usize = 0;
    while i < len
        invariant
            i <= len,
            acc.len() == i,
            forall|row: int| 0 <= row < i ==> #[trigger] acc@[row] is None,
        decreases len - i,
    {
        acc.push(None);
        i += 1;
    }
    acc
}

impl<C: CurveAffine, S: OpeningScheme<C>> Proof<C, S> {
    /// The contributions of all queries: those of the advice queries, then
    /// those of the fixed queries, then those of the quotient chunks; or the
    /// error of the first query that cannot be resolved.
    pub open spec fn query_contributions(&self, srs: &SRS<C>) -> Result<
        Seq<Contribution<C>>,
        Malformed,
    > {
        let rows = srs.meta.query_rows@;
        match contributions(
            rows,
            queries_of(srs.meta.advice_queries@),
            self.advice_commitments@,
            values(self.advice_evals_x@),
        ) {
            Err(e) => Err(e),
            Ok(advice) => match contributions(
                rows,
                queries_of(srs.meta.fixed_queries@),
                srs.fixed_commitments@,
                values(self.fixed_evals_x@),
            ) {
                Err(e) => Err(e),
                Ok(fixed) => match contributions(
                    rows,
                    chunk_queries(self.h_commitments.len() as int, self.h_evals_x.len() as int),
                    self.h_commitments@,
                    values(self.h_evals_x@),
                ) {
                    Err(e) => Err(e),
                    Ok(chunks) => Ok(advice + fixed + chunks),
                },
            },
        }
    }

    /// Merges all queries with the same evaluation point: each query row
    /// gets the combination, by Horner's rule in `x_4`, of the commitments
    /// and of the evaluations of its queries. A row that no query belongs to
    /// holds nothing.
    pub fn aggregate_rows(&self, srs: &SRS<C>, x_4: &C::Scalar) -> (r: Result<
        Vec<Option<(C, C::Scalar)>>,
        Malformed,
    >)
        ensures
            match self.query_contributions(srs) {
                Err(e) => r == Err::<Vec<Option<(C, C::Scalar)>>, Malformed>(e),
                Ok(cs) => r is Ok && slot_views(r->Ok_0@) == merged_rows(
                    cs,
                    srs.meta.query_rows.len() as nat,
                    x_4.value(),
                ),
            },
    {
        let rows = &srs.meta.query_rows;
        let mut acc = empty_rows::<C>(rows.len());
        let ghost start = acc@;
        merge_queries(
            &mut acc,
            rows,
            &srs.meta.advice_queries,
            &self.advice_commitments,
            &self.advice_evals_x,
            x_4,
        )?;
        let ghost after_advice = acc@;
        merge_queries(
            &mut acc,
            rows,
            &srs.meta.fixed_queries,
            &srs.fixed_commitments,
            &self.fixed_evals_x,
            x_4,
        )?;
        let ghost after_fixed = acc@;
        merge_chunks(&mut acc, rows, &self.h_commitments, &self.h_evals_x, x_4)?;
        proof {
            let cs = self.query_contributions(srs)->Ok_0;
            let advice = contributions(
                rows@,
                queries_of(srs.meta.advice_queries@),
                self.advice_commitments@,
                values(self.advice_evals_x@),
            )->Ok_0;
            let fixed = contributions(
                rows@,
                queries_of(srs.meta.fixed_queries@),
                srs.fixed_commitments@,
                values(self.fixed_evals_x@),
            )->Ok_0;
            let chunks = contributions(
                rows@,
                chunk_queries(self.h_commitments.len() as int, self.h_evals_x.len() as int),
                self.h_commitments@,
                values(self.h_evals_x@),
            )->Ok_0;
            assert forall|row: int| 0 <= row < rows.len() implies slot_view(#[trigger] acc@[row])
                == accumulate(None, cs, row, x_4.value()) by {
                assert(slot_view(start[row]) == None::<(C, int)>);
                assert(slot_view(after_advice[row]) == accumulate(
                    None,
                    advice,
                    row,
                    x_4.value(),
                ));
                assert(slot_view(after_fixed[row]) == accumulate(
                    slot_view(after_advice[row]),
                    fixed,
                    row,
                    x_4.value(),
                ));
                lemma_accumulate_concat(None, advice, fixed, row, x_4.value());
                lemma_accumulate_concat(None, advice + fixed, chunks, row, x_4.value());
            }
            assert(slot_views(acc@) =~= merged_rows(cs, rows.len() as nat, x_4.value()));
        }
        Ok(acc)
    }
}

/// The evaluation point of a query row: the principal point `z` shifted by
/// the root of unity to the power of the rotation, or by the inverse root to
/// the power of its magnitude where the rotation is negative.
pub open spec fn row_point(z: int, omega: int, omega_inv: int, at: Rotation, p: int) -> int {
    if at.0 >= 0 {
        mul_mod(z, pow_mod(omega, at.0 as nat, p), p)
    } else {
        mul_mod(z, pow_mod(omega_inv, (-at.0) as nat, p), p)
    }
}

/// The divided difference of a row: the claimed evaluation at `x_6` less the
/// evaluation held at `point`, over `x_6 - point`; `None` where the two
/// points coincide.
pub open spec fn row_term(claimed: int, held: int, x_6: int, point: int, p: int) -> Option<int> {
    if sub_mod(x_6, point, p) == 0 {
        None
    } else {
        Some(div_mod(sub_mod(claimed, held, p), sub_mod(x_6, point, p), p))
    }
}

/// The value at `x_6` of the aggregation polynomial: the divided differences
/// of all rows, combined by Horner's rule in `x_5` in the order of the rows.
/// A row without accumulated queries or without a claimed evaluation, and a
/// row whose point is `x_6`, is an error; the first such row decides.
pub open spec fn aggregation_eval<C: CurveAffine>(
    rows: Seq<Rotation>,
    held: Seq<Option<(C, int)>>,
    claimed: Seq<int>,
    z: int,
    omega: int,
    omega_inv: int,
    x_5: int,
    x_6: int,
) -> Result<int, Malformed>
    decreases rows.len(),
{
    let p = C::Scalar::modulus();
    if rows.len() == 0 {
        Ok(0)
    } else {
        let k = rows.len() - 1;
        match aggregation_eval(rows.drop_last(), held, claimed, z, omega, omega_inv, x_5, x_6) {
            Err(e) => Err(e),
            Ok(f) => if k >= claimed.len() || k >= held.len() || held[k] is None {
                Err(Malformed::QueryRowOutOfRange)
            } else {
                match row_term(
                    claimed[k],
                    held[k]->Some_0.1,
                    x_6,
                    row_point(z, omega, omega_inv, rows[k], p),
                    p,
                ) {
                    None => Err(Malformed::ZeroDenominator),
                    Some(t) => Ok(add_mod(mul_mod(f, x_5, p), t, p)),
                }
            },
        }
    }
}

/// The commitment of the final query: the commitment `f` and the commitment
/// of each row, combined by Horner's rule in `x_7`; `None` where a row holds
/// nothing.
pub open spec fn final_commitment<C: CurveAffine>(f: C, held: Seq<Option<(C, int)>>, x_7: int)
    -> Option<C>
    decreases held.len(),
{
    if held.len() == 0 {
        Some(f)
    } else {
        match (final_commitment(f, held.drop_last(), x_7), held.last()) {
            (Some(acc), Some(slot)) => Some(acc.scaled(x_7).sum(slot.0)),
            _ => None,
        }
    }
}

/// The value `start` and the values `terms`, combined by Horner's rule in
/// `x`.
pub open spec fn horner(start: int, terms: Seq<int>, x: int, p: int) -> int
    decreases terms.len(),
{
    if terms.len() == 0 {
        start
    } else {
        add_mod(mul_mod(horner(start, terms.drop_last(), x, p), x, p), terms.last(), p)
    }
}

/// The final query: the commitment and the claimed value at `x_6` of the
/// combination, by Horner's rule in `x_7`, of the aggregation polynomial and
/// of the polynomial of each row.
pub open spec fn final_query<C: CurveAffine>(
    f_commitment: C,
    f_eval: int,
    held: Seq<Option<(C, int)>>,
    claimed: Seq<int>,
    x_7: int,
) -> Result<(C, int), Malformed> {
    if claimed.len() < held.len() {
        Err(Malformed::QueryRowOutOfRange)
    } else {
        match final_commitment(f_commitment, held, x_7) {
            None => Err(Malformed::QueryRowOutOfRange),
            Some(c) => Ok(
                (c, horner(f_eval, claimed.take(held.len() as int), x_7, C::Scalar::modulus())),
            ),
        }
    }
}

/// The views of a list of rows.
pub open spec fn slot_views<C: CurveAffine>(held: Seq<Option<(C, C::Scalar)>>) -> Seq<
    Option<(C, int)>,
> {
    Seq::new(held.len(), |i: int| slot_view(held[i]))
}

/// A failure on a prefix of the rows is the failure of the whole list.
pub proof fn lemma_aggregation_eval_prefix<C: CurveAffine>(
    rows: Seq<Rotation>,
    held: Seq<Option<(C, int)>>,
    claimed: Seq<int>,
    z: int,
    omega: int,
    omega_inv: int,
    x_5: int,
    x_6: int,
    k: int,
)
    requires
        0 <= k <= rows.len(),
        aggregation_eval(rows.take(k), held, claimed, z, omega, omega_inv, x_5, x_6) is Err,
    ensures
        aggregation_eval(rows, held, claimed, z, omega, omega_inv, x_5, x_6) == aggregation_eval(
            rows.take(k),
            held,
            claimed,
            z,
            omega,
            omega_inv,
            x_5,
            x_6,
        ),
    decreases rows.len() - k,
{
    if k < rows.len() {
        assert(rows.take(k + 1).drop_last() == rows.take(k));
        lemma_aggregation_eval_prefix(rows, held, claimed, z, omega, omega_inv, x_5, x_6, k + 1);
    } else {
        assert(rows.take(k) == rows);
    }
}

/// A row that holds nothing in a prefix leaves the whole list without a
/// final commitment.
pub proof fn lemma_final_commitment_prefix<C: CurveAffine>(
    f: C,
    held: Seq<Option<(C, int)>>,
    x_7: int,
    k: int,
)
    requires
        0 <= k <= held.len(),
        final_commitment(f, held.take(k), x_7) is None,
    ensures
        final_commitment(f, held, x_7) is None,
    decreases held.len() - k,
{
    if k < held.len() {
        assert(held.take(k + 1).drop_last() == held.take(k));
        lemma_final_commitment_prefix(f, held, x_7, k + 1);
    } else {
        assert(held.take(k) == held);
    }
}

/// The evaluation point of a query row.
pub fn rotate_point<F: PrimeField>(domain: &EvaluationDomain<F>, z: &F, at: Rotation) -> (r: F)
    ensures
        r.value() == row_point(
            z.value(),
            domain.omega.value(),
            domain.omega_inv.value(),
            at,
            F::modulus(),
        ),
{
    if at.0 >= 0 {
        z.mul(&domain.omega.pow(at.0 as u64))
    } else {
        let magnitude: i64 = -(at.0 as i64);
        z.mul(&domain.omega_inv.pow(magnitude as u64))
    }
}

/// Evaluates the aggregation polynomial at `x_6` from the claimed
/// evaluations of the rows.
pub fn evaluate_aggregation<C: CurveAffine>(
    rows: &Vec<Rotation>,
    held: &Vec<Option<(C, C::Scalar)>>,
    claimed: &Vec<C::Scalar>,
    domain: &EvaluationDomain<C::Scalar>,
    z: &C::Scalar,
    x_5: &C::Scalar,
    x_6: &C::Scalar,
) -> (r: Result<C::Scalar, Malformed>)
    ensures
        match aggregation_eval(
            rows@,
            slot_views(held@),
            values(claimed@),
            z.value(),
            domain.omega.value(),
            domain.omega_inv.value(),
            x_5.value(),
            x_6.value(),
        ) {
            Err(e) => r == Err::<C::Scalar, Malformed>(e),
            Ok(f) => r is Ok && r->Ok_0.value() == f,
        },
{
    let mut f_eval = C::Scalar::zero();
    let mut k: usize = 0;
    while k < rows.len()
        invariant
            k <= rows.len(),
            aggregation_eval(
                rows@.take(k as int),
                slot_views(held@),
                values(claimed@),
                z.value(),
                domain.omega.value(),
                domain.omega_inv.value(),
                x_5.value(),
                x_6.value(),
            ) == Ok::<int, Malformed>(f_eval.value()),
        decreases rows.len() - k,
    {
        proof {
            assert(rows@.take(k + 1).drop_last() == rows@.take(k as int));
            assert(rows@.take(k + 1).last() == rows@[k as int]);
        }
        let term = if k >= claimed.len() || k >= held.len() {
            Err(Malformed::QueryRowOutOfRange)
        } else {
            match held[k] {
                None => Err(Malformed::QueryRowOutOfRange),
                Some(slot) => {
                    let point = rotate_point(domain, z, rows[k]);
                    let difference = claimed[k].sub(&slot.1);
                    match divide(&difference, &x_6.sub(&point)) {
                        None => Err(Malformed::ZeroDenominator),
                        Some(t) => Ok(t),
                    }
                },
            }
        };
        match term {
            Err(e) => {
                proof {
                    lemma_aggregation_eval_prefix(
                        rows@,
                        slot_views(held@),
                        values(claimed@),
                        z.value(),
                        domain.omega.value(),
                        domain.omega_inv.value(),
                        x_5.value(),
                        x_6.value(),
                        k + 1,
                    );
                }
                return Err(e);
            },
            Ok(t) => {
                f_eval = f_eval.mul(x_5).add(&t);
            },
        }
        k += 1;
    }
    proof {
        assert(rows@.take(k as int) == rows@);
    }
    Ok(f_eval)
}

/// Folds the aggregation polynomial and all rows into the final query.
pub fn fold_queries<C: CurveAffine>(
    f_commitment: &C,
    f_eval: &C::Scalar,
    held: &Vec<Option<(C, C::Scalar)>>,
    claimed: &Vec<C::Scalar>,
    x_7: &C::Scalar,
) -> (r: Result<(C, C::Scalar), Malformed>)
    ensures
        match final_query(
            *f_commitment,
            f_eval.value(),
            slot_views(held@),
            values(claimed@),
            x_7.value(),
        ) {
            Err(e) => r == Err::<(C, C::Scalar), Malformed>(e),
            Ok(q) => r is Ok && r->Ok_0.0 == q.0 && r->Ok_0.1.value() == q.1,
        },
{
    if claimed.len() < held.len() {
        return Err(Malformed::QueryRowOutOfRange);
    }
    let mut commitment = *f_commitment;
    let mut eval = *f_eval;
    let mut k: usize = 0;
    while k < held.len()
        invariant
            k <= held.len() <= claimed.len(),
            final_commitment(*f_commitment, slot_views(held@).take(k as int), x_7.value()) == Some(
                commitment,
            ),
            eval.value() == horner(
                f_eval.value(),
                values(claimed@).take(k as int),
                x_7.value(),
                C::Scalar::modulus(),
            ),
        decreases held.len() - k,
    {
        proof {
            assert(slot_views(held@).take(k + 1).drop_last() == slot_views(held@).take(k as int));
            assert(values(claimed@).take(k + 1).drop_last() == values(claimed@).take(k as int));
        }
        match held[k] {
            None => {
                proof {
                    lemma_final_commitment_prefix(
                        *f_commitment,
                        slot_views(held@),
                        x_7.value(),
                        k + 1,
                    );
                }
                return Err(Malformed::QueryRowOutOfRange);
            },
            Some(slot) => {
                commitment = commitment.scale(x_7).add(&slot.0);
                eval = eval.mul(x_7).add(&claimed[k]);
            },
        }
        k += 1;
    }
    proof {
        assert(slot_views(held@).take(k as int) == slot_views(held@));
        assert(values(claimed@).take(k as int) == values(claimed@).take(
            slot_views(held@).len() as int,
        ));
    }
    Ok((commitment, eval))
}

} // verus!
