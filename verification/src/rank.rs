use vstd::prelude::*;
use vstd::seq_lib::lemma_multiset_commutative;
use crate::errors::ErrorKind;

verus! {

broadcast use vstd::seq_lib::group_to_multiset_ensures;

/// One satellite's propagated sub-satellite point and distance metric,
/// ready for ranking.
///
/// The geodetic angles and the distance are IEEE-754 doubles carried as
/// bit patterns. A caller only places an entry whose distance is a
/// non-negative finite double, and on that range the unsigned order of
/// the bit patterns coincides with the numeric order of the doubles, so
/// ordering by `distance_bits` orders by distance.
#[derive(Clone, Copy, Debug, PartialEq, Eq, Structural)]
pub struct RankedEntry {
    pub norad_id: u64,
    pub lat_bits: u64,
    pub lon_bits: u64,
    pub alt_bits: u64,
    pub distance_bits: u64,
}

/// A satellite excluded from the ranking, with the reason.
#[derive(Clone, Copy, Debug, PartialEq, Eq, Structural)]
pub struct Failure {
    pub norad_id: u64,
    pub kind: ErrorKind,
}

/// What one satellite contributed to a query: a ranked position, or a
/// failure that must not disturb the others.
#[derive(Clone, Copy, Debug, PartialEq, Eq, Structural)]
pub enum Outcome {
    Placed(RankedEntry),
    Failed(Failure),
}

/// The ranking order: ascending by distance metric, ties broken by
/// catalog id ascending, so that the order is total and reproducible.
pub open spec fn entry_le(a: RankedEntry, b: RankedEntry) -> bool {
    a.distance_bits < b.distance_bits || (a.distance_bits == b.distance_bits
        && a.norad_id <= b.norad_id)
}

pub open spec fn sorted(s: Seq<RankedEntry>) -> bool {
    forall|i: int, j: int| 0 <= i < j < s.len() ==> entry_le(s[i], s[j])
}

/// Insertion of one entry into a run kept in ranking order.
pub open spec fn spec_insert(x: RankedEntry, s: Seq<RankedEntry>) -> Seq<RankedEntry>
    decreases s.len(),
{
    if s.len() == 0 {
        seq![x]
    } else if entry_le(s[0], x) {
        seq![s[0]] + spec_insert(x, s.drop_first())
    } else {
        seq![x] + s
    }
}

/// The ranking of a sequence of entries: insertion sort, stated as a
/// function so that the ranking of a given input is a single value.
pub open spec fn spec_sort(s: Seq<RankedEntry>) -> Seq<RankedEntry>
    decreases s.len(),
{
    if s.len() == 0 {
        Seq::empty()
    } else {
        spec_insert(s.last(), spec_sort(s.drop_last()))
    }
}

proof fn lemma_insert_split(x: RankedEntry, s: Seq<RankedEntry>, j: int)
    requires
        0 <= j <= s.len(),
        forall|k: int| 0 <= k < j ==> entry_le(s[k], x),
        j < s.len() ==> !entry_le(s[j], x),
    ensures
        spec_insert(x, s) == s.subrange(0, j) + seq![x] + s.subrange(j, s.len() as int),
    decreases j,
{
    if j == 0 {
        if s.len() == 0 {
            assert(spec_insert(x, s) =~= s.subrange(0, 0) + seq![x] + s.subrange(0, 0));
        } else {
            assert(spec_insert(x, s) =~= s.subrange(0, 0) + seq![x] + s.subrange(0, s.len() as int));
        }
    } else {
        let t = s.drop_first();
        assert forall|k: int| 0 <= k < j - 1 implies entry_le(t[k], x) by {
            assert(t[k] == s[k + 1]);
        }
        assert(j - 1 < t.len() ==> !entry_le(t[j - 1], x)) by {
            if j - 1 < t.len() {
                assert(t[j - 1] == s[j]);
            }
        }
        lemma_insert_split(x, t, j - 1);
        assert(spec_insert(x, s) =~= s.subrange(0, j) + seq![x] + s.subrange(j, s.len() as int));
    }
}

fn entry_le_exec(a: &RankedEntry, b: &RankedEntry) -> (r: bool)
    ensures
        r == entry_le(*a, *b),
{
    a.distance_bits < b.distance_bits || (a.distance_bits == b.distance_bits
        && a.norad_id <= b.norad_id)
}

fn insert_sorted(r: &mut Vec<RankedEntry>, x: RankedEntry)
    requires
        sorted(old(r)@),
    ensures
        final(r)@ == spec_insert(x, old(r)@),
        sorted(final(r)@),
        final(r)@.to_multiset() == old(r)@.push(x).to_multiset(),
{
    let ghost s = r@;
    let mut j: usize = 0;
    while j < r.len() && entry_le_exec(&r[j], &x)
        invariant
            j <= r.len(),
            r@ == s,
            forall|k: int| 0 <= k < j ==> entry_le(s[k], x),
        decreases r.len() - j,
    {
        j += 1;
    }
    proof {
        lemma_insert_split(x, s, j as int);
    }
    r.insert(j, x);
    proof {
        assert(r@ =~= s.subrange(0, j as int) + seq![x] + s.subrange(j as int, s.len() as int));
        assert forall|p: int, q: int| 0 <= p < q < r@.len() implies entry_le(r@[p], r@[q]) by {
            let ji = j as int;
            if p < ji && q == ji {
                assert(entry_le(s[p], x));
            } else if p == ji && q > ji {
                assert(ji < s.len());
                assert(entry_le(x, s[ji]));
                if q - 1 > ji {
                    assert(entry_le(s[ji], s[q - 1]));
                }
            } else if p < ji && q > ji {
                assert(entry_le(s[p], s[q - 1]));
            } else if p > ji && q > ji {
                assert(entry_le(s[p - 1], s[q - 1]));
            }
        }
        assert(s.subrange(0, j as int) + s.subrange(j as int, s.len() as int) =~= s);
        lemma_multiset_commutative(s.subrange(0, j as int) + seq![x], s.subrange(j as int, s.len() as int));
        lemma_multiset_commutative(s.subrange(0, j as int), seq![x]);
        lemma_multiset_commutative(s.subrange(0, j as int), s.subrange(j as int, s.len() as int));
        lemma_multiset_commutative(s, seq![x]);
        assert(s.push(x) =~= s + seq![x]);
        assert(r@.to_multiset() =~= s.push(x).to_multiset());
    }
}

/// Ranks a set of entries: the result is exactly the insertion sort of the
/// input, hence sorted ascending by (distance, id) and a permutation of
/// the input. Identical inputs give identical rankings.
pub fn rank(v: &Vec<RankedEntry>) -> (r: Vec<RankedEntry>)
    ensures
        r@ == spec_sort(v@),
        sorted(r@),
        r@.to_multiset() == v@.to_multiset(),
{
    let mut r: Vec<RankedEntry> = Vec::new();
    let mut i: usize = 0;
    proof {
        assert(v@.take(0) =~= Seq::<RankedEntry>::empty());
    }
    while i < v.len()
        invariant
            i <= v.len(),
            r@ == spec_sort(v@.take(i as int)),
            sorted(r@),
            r@.to_multiset() == v@.take(i as int).to_multiset(),
        decreases v.len() - i,
    {
        let ghost prev = v@.take(i as int);
        insert_sorted(&mut r, v[i]);
        proof {
            assert(v@.take(i + 1).drop_last() =~= prev);
            assert(v@.take(i + 1).last() == v@[i as int]);
            assert(prev.push(v@[i as int]) =~= v@.take(i + 1));
        }
        i += 1;
    }
    proof {
        assert(v@.take(v@.len() as int) =~= v@);
    }
    r
}

/// The entries of the successful outcomes, in input order.
pub open spec fn placed_of(s: Seq<Outcome>) -> Seq<RankedEntry>
    decreases s.len(),
{
    if s.len() == 0 {
        Seq::empty()
    } else {
        match s[0] {
            Outcome::Placed(e) => seq![e] + placed_of(s.drop_first()),
            Outcome::Failed(_) => placed_of(s.drop_first()),
        }
    }
}

/// The failures among the outcomes, in input order.
pub open spec fn failures_of(s: Seq<Outcome>) -> Seq<Failure>
    decreases s.len(),
{
    if s.len() == 0 {
        Seq::empty()
    } else {
        match s[0] {
            Outcome::Placed(_) => failures_of(s.drop_first()),
            Outcome::Failed(f) => seq![f] + failures_of(s.drop_first()),
        }
    }
}

pub proof fn lemma_placed_of_append(a: Seq<Outcome>, b: Seq<Outcome>)
    ensures
        placed_of(a + b) == placed_of(a) + placed_of(b),
        failures_of(a + b) == failures_of(a) + failures_of(b),
    decreases a.len(),
{
    if a.len() == 0 {
        assert(a + b =~= b);
        assert(placed_of(a) + placed_of(b) =~= placed_of(b));
        assert(failures_of(a) + failures_of(b) =~= failures_of(b));
    } else {
        assert((a + b).drop_first() =~= a.drop_first() + b);
        lemma_placed_of_append(a.drop_first(), b);
        assert((a + b)[0] == a[0]);
        match a[0] {
            Outcome::Placed(e) => {
                assert(placed_of(a + b) =~= placed_of(a) + placed_of(b));
                assert(failures_of(a + b) =~= failures_of(a) + failures_of(b));
            },
            Outcome::Failed(f) => {
                assert(placed_of(a + b) =~= placed_of(a) + placed_of(b));
                assert(failures_of(a + b) =~= failures_of(a) + failures_of(b));
            },
        }
    }
}

proof fn lemma_outcome_singleton(o: Outcome)
    ensures
        placed_of(seq![o]) == (match o {
            Outcome::Placed(e) => seq![e],
            Outcome::Failed(_) => Seq::<RankedEntry>::empty(),
        }),
        failures_of(seq![o]) == (match o {
            Outcome::Placed(_) => Seq::<Failure>::empty(),
            Outcome::Failed(f) => seq![f],
        }),
{
    let s = seq![o];
    assert(s.len() == 1 && s[0] == o);
    assert(s.drop_first() =~= Seq::<Outcome>::empty());
    assert(placed_of(Seq::<Outcome>::empty()) == Seq::<RankedEntry>::empty());
    assert(failures_of(Seq::<Outcome>::empty()) == Seq::<Failure>::empty());
    match o {
        Outcome::Placed(e) => {
            assert(placed_of(s) =~= seq![e]);
            assert(failures_of(s) =~= Seq::<Failure>::empty());
        },
        Outcome::Failed(f) => {
            assert(placed_of(s) =~= Seq::<RankedEntry>::empty());
            assert(failures_of(s) =~= seq![f]);
        },
    }
}

/// A whole query's result: the ranking of every satellite that propagated,
/// and the failures, each under the id it belongs to.
pub struct QueryOutput {
    pub ranking: Vec<RankedEntry>,
    pub failures: Vec<Failure>,
}

/// Collates per-satellite outcomes into the final query result.
///
/// The ranking is exactly the insertion sort of the successful entries in
/// input order; the failure list keeps the failures in input order. Both
/// are functions of the outcome sequence alone, so identical inputs give
/// identical results whatever schedule produced the outcomes.
pub fn collate(outcomes: &Vec<Outcome>) -> (q: QueryOutput)
    ensures
        q.ranking@ == spec_sort(placed_of(outcomes@)),
        sorted(q.ranking@),
        q.ranking@.to_multiset() == placed_of(outcomes@).to_multiset(),
        q.failures@ == failures_of(outcomes@),
{
    let mut placed: Vec<RankedEntry> = Vec::new();
    let mut failures: Vec<Failure> = Vec::new();
    let mut i: usize = 0;
    proof {
        assert(outcomes@.take(0) =~= Seq::<Outcome>::empty());
    }
    while i < outcomes.len()
        invariant
            i <= outcomes.len(),
            placed@ == placed_of(outcomes@.take(i as int)),
            failures@ == failures_of(outcomes@.take(i as int)),
        decreases outcomes.len() - i,
    {
        let ghost prev = outcomes@.take(i as int);
        let o = outcomes[i];
        match o {
            Outcome::Placed(e) => placed.push(e),
            Outcome::Failed(f) => failures.push(f),
        }
        proof {
            assert(outcomes@.take(i + 1) =~= prev + seq![o]);
            lemma_placed_of_append(prev, seq![o]);
            lemma_outcome_singleton(o);
            assert(placed@ =~= placed_of(outcomes@.take(i + 1)));
            assert(failures@ =~= failures_of(outcomes@.take(i + 1)));
        }
        i += 1;
    }
    proof {
        assert(outcomes@.take(outcomes@.len() as int) =~= outcomes@);
    }
    let ranking = rank(&placed);
    QueryOutput { ranking, failures }
}

impl QueryOutput {
    /// The nearest satellite is the head of the ranking.
    pub fn nearest(&self) -> (r: Option<RankedEntry>)
        ensures
            self.ranking@.len() == 0 ==> r is None,
            self.ranking@.len() > 0 ==> r == Some(self.ranking@[0]),
    {
        if self.ranking.len() == 0 {
            None
        } else {
            Some(self.ranking[0])
        }
    }
}

/// The ranking order is total: any two entries are comparable, the order
/// is transitive, and two entries that compare equal both ways carry the
/// same metric and the same id — so a sorted ranking is reproducible.
pub proof fn lemma_ranking_order_total(a: RankedEntry, b: RankedEntry, c: RankedEntry)
    ensures
        entry_le(a, b) || entry_le(b, a),
        entry_le(a, b) && entry_le(b, c) ==> entry_le(a, c),
        entry_le(a, b) && entry_le(b, a) ==> a.distance_bits == b.distance_bits && a.norad_id
            == b.norad_id,
{
}

/// Determinism: the ranking and the failure list are functions of the
/// outcome sequence alone; two queries over identical outcomes give
/// identical results, irrespective of how the outcomes were computed.
pub proof fn lemma_query_deterministic(a: Seq<Outcome>, b: Seq<Outcome>)
    requires
        a == b,
    ensures
        spec_sort(placed_of(a)) == spec_sort(placed_of(b)),
        failures_of(a) == failures_of(b),
{
}

/// Failure isolation: inserting a failing outcome anywhere in a batch
/// leaves the ranking of the other records exactly as it was; the failure
/// only joins the failure list, at its position in input order.
pub proof fn lemma_failure_isolation(s: Seq<Outcome>, i: int, f: Failure)
    requires
        0 <= i <= s.len(),
    ensures
        placed_of(s.insert(i, Outcome::Failed(f))) == placed_of(s),
        spec_sort(placed_of(s.insert(i, Outcome::Failed(f)))) == spec_sort(placed_of(s)),
        failures_of(s.insert(i, Outcome::Failed(f))) == failures_of(s.take(i)) + seq![f]
            + failures_of(s.skip(i)),
{
    let o = Outcome::Failed(f);
    let t = s.insert(i, o);
    assert(t =~= s.take(i) + (seq![o] + s.skip(i)));
    lemma_placed_of_append(s.take(i), seq![o] + s.skip(i));
    lemma_placed_of_append(seq![o], s.skip(i));
    lemma_outcome_singleton(o);
    assert(s =~= s.take(i) + s.skip(i));
    lemma_placed_of_append(s.take(i), s.skip(i));
    assert(placed_of(t) =~= placed_of(s));
    assert(failures_of(t) =~= failures_of(s.take(i)) + seq![f] + failures_of(s.skip(i)));
}

} // verus!
