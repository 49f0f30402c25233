//! Nearest-neighbour operators that no index serves.
//!
//! In a first pass over the records each of them is measured, and the caller keeps the nearest
//! ones. From these a result is built, by which a second pass tells whether a record is one of
//! them.
use crate::executor::{KnnBruteForceEntry, QueryExecutor, Step};
use crate::plan::{Expression, Thing};
use crate::shared::share;
use crate::value::{Number, Value};
use std::collections::HashMap;
use std::sync::Arc;
use vstd::prelude::*;

verus! {

broadcast use vstd::std_specs::hash::group_hash_axioms;

/// A record with its distance from the vector of an operator.
#[derive(Debug, PartialEq, Eq)]
pub struct KnnRecord {
    pub thing: Thing,
    pub dist: Number,
}

/// The nearest records, by the key of the expression.
pub struct KnnBruteForceResult {
    pub records: HashMap<u64, Arc<Vec<KnnRecord>>>,
}

/// The results of all executors of a query.
pub struct KnnBruteForceResults(pub Vec<KnnBruteForceResult>);

/// What a query is doing with the records.
pub enum IterationStage {
    /// It looks for the records to return, with what the earlier stages have found, if anything.
    Iterate(Option<KnnBruteForceResults>),
    /// It measures the records.
    CollectKnn,
    /// It builds the results.
    BuildKnn,
}

/// The distance of a record: that of the vector at a path of the record from another vector.
pub struct KnnQuestion<'a> {
    pub entry: &'a KnnBruteForceEntry,
}

/// Two identifiers are those of one record.
pub open spec fn same_thing(a: Thing, b: Thing) -> bool {
    a.tb@ == b.tb@ && a.id@ == b.id@
}

/// A record is among those found.
pub open spec fn has_record(records: Seq<KnnRecord>, thg: Thing) -> bool {
    exists|i: int| 0 <= i < records.len() && same_thing((#[trigger] records[i]).thing, thg)
}

impl KnnBruteForceResult {
    /// A record is among those found for an expression.
    pub open spec fn holds(self, exp: u64, thg: Thing) -> bool {
        self.records@.contains_key(exp) && has_record(self.records@[exp]@, thg)
    }

    pub fn contains(&self, exp: &Expression, thg: &Thing) -> (r: bool)
        ensures
            r == self.holds(exp.key, *thg),
    {
        if let Some(records) = self.records.get(&exp.key) {
            for record in it: records.iter()
                invariant
                    it.seq().unref() == records@,
                    self.records@.contains_key(exp.key),
                    records@ == self.records@[exp.key]@,
                    forall|i: int|
                        0 <= i < it.index() ==> !same_thing((#[trigger] records@[i]).thing, *thg),
            {
                assert(records@[it.index()] == *record);
                if record.thing.tb == thg.tb && record.thing.id == thg.id {
                    assert(same_thing(records@[it.index()].thing, *thg));
                    return true;
                }
            }
        }
        false
    }
}

impl KnnBruteForceResults {
    /// A record is among those found for an expression by one of the executors.
    pub open spec fn holds(self, exp: u64, thg: Thing) -> bool {
        exists|i: int| 0 <= i < self.0@.len() && (#[trigger] self.0@[i]).holds(exp, thg)
    }

    pub fn contains(&self, exp: &Expression, thg: &Thing) -> (r: bool)
        ensures
            r == self.holds(exp.key, *thg),
    {
        for result in it: self.0.iter()
            invariant
                it.seq().unref() == self.0@,
                forall|i: int|
                    0 <= i < it.index() ==> !(#[trigger] self.0@[i]).holds(exp.key, *thg),
        {
            assert(self.0@[it.index()] == *result);
            if result.contains(exp, thg) {
                return true;
            }
        }
        false
    }
}

/// Whether a record is one of the nearest, or the distance to be measured.
pub open spec fn knn_step<'a>(
    q: QueryExecutor,
    stage: Option<&IterationStage>,
    thg: Thing,
    exp: Expression,
) -> Step<Value, KnnQuestion<'a>> {
    match stage {
        Some(IterationStage::Iterate(Some(results))) => Step::Done(
            Value::Bool(results.holds(exp.key, thg)),
        ),
        Some(IterationStage::Iterate(None)) => Step::Done(Value::Bool(false)),
        _ => if q.0.knn_bruteforce_entries@.contains_key(exp.key) {
            Step::Ask(KnnQuestion { entry: &q.0.knn_bruteforce_entries@[exp.key] })
        } else {
            Step::Done(Value::Bool(false))
        },
    }
}

/// What is answered for a record with its distance, if it has one, and the record to keep.
pub open spec fn measured(thg: Thing, dist: Option<Number>) -> (Value, Option<KnnRecord>) {
    match dist {
        Some(dist) => (Value::Bool(true), Some(KnnRecord { thing: thg, dist })),
        None => (Value::Bool(false), None),
    }
}

/// `records` are those built for an expression: none, where nothing was collected.
pub open spec fn built_for(built: Map<u64, Arc<Vec<KnnRecord>>>, exp: u64) -> Seq<KnnRecord> {
    if built.contains_key(exp) {
        built[exp]@
    } else {
        Seq::empty()
    }
}

/// The result of an executor: for each of its operators the records that were built.
pub open spec fn is_knn_result(
    q: QueryExecutor,
    built: Map<u64, Arc<Vec<KnnRecord>>>,
    result: KnnBruteForceResult,
) -> bool {
    &&& result.records@.dom() == q.0.knn_bruteforce_entries@.dom()
    &&& forall|exp: u64| #[trigger]
        result.records@.contains_key(exp) ==> result.records@[exp]@ == built_for(built, exp)
}

impl QueryExecutor {
    /// Tells whether a record is one of the nearest, or what distance is to be measured for that.
    pub fn knn<'a>(&'a self, stage: Option<&IterationStage>, thg: &Thing, exp: &Expression) -> (r:
        Step<Value, KnnQuestion<'a>>)
        ensures
            r == knn_step(*self, stage, *thg, *exp),
    {
        if let Some(IterationStage::Iterate(e)) = stage {
            if let Some(results) = e {
                return Step::Done(Value::Bool(results.contains(exp, thg)));
            }
            Step::Done(Value::Bool(false))
        } else {
            if let Some(entry) = self.0.knn_bruteforce_entries.get(&exp.key) {
                return Step::Ask(KnnQuestion { entry });
            }
            Step::Done(Value::Bool(false))
        }
    }

    /// What to answer for a record that was measured, and the record to keep: none, if it has no
    /// distance.
    pub fn knn_with_distance(thg: &Thing, dist: Option<Number>) -> (r: (Value, Option<KnnRecord>))
        ensures
            r == (match dist {
                Some(dist) => (Value::Bool(true), Some(KnnRecord { thing: *thg, dist })),
                None => (Value::Bool(false), None),
            }),
            r == measured(*thg, dist),
    {
        if let Some(dist) = dist {
            return (Value::Bool(true), Some(KnnRecord { thing: thg.clone(), dist }));
        }
        (Value::Bool(false), None)
    }

    /// The result of this executor, from the nearest records that were kept for each expression.
    pub fn build_bruteforce_knn_result(&self, built: &HashMap<u64, Arc<Vec<KnnRecord>>>) -> (r:
        KnnBruteForceResult)
        ensures
            is_knn_result(*self, built@, r),
    {
        let mut records: HashMap<u64, Arc<Vec<KnnRecord>>> = HashMap::with_capacity(
            self.0.knn_bruteforce_entries.len(),
        );
        let ghost entries = self.0.knn_bruteforce_entries@;
        for entry in it: self.0.knn_bruteforce_entries.iter()
            invariant
                it.seq().len() == entries.dom().len(),
                forall|i: int|
                    0 <= i < it.seq().len() ==> entries.contains_key(*(#[trigger] it.seq()[i]).0),
                forall|exp: u64| #[trigger]
                    entries.contains_key(exp) ==> it.seq().contains((&exp, &entries[exp])),
                forall|exp: u64| #[trigger]
                    records@.contains_key(exp) <==> exists|i: int|
                        0 <= i < it.index() && *(#[trigger] it.seq()[i]).0 == exp,
                forall|exp: u64| #[trigger]
                    records@.contains_key(exp) ==> records@[exp]@ == built_for(built@, exp),
        {
            let (exp, _) = entry;
            let kept: Arc<Vec<KnnRecord>> = match built.get(exp) {
                Some(kept) => share(kept),
                None => Arc::new(Vec::new()),
            };
            records.insert(*exp, kept);
        }
        assert(records@.dom() =~= entries.dom());
        KnnBruteForceResult { records }
    }
}

/// Once the result of an executor has been built, a record is one of the nearest for an expression
/// exactly if it was kept for it and the expression is one of the executor's operators.
pub proof fn law_second_pass_finds_what_was_kept(
    q: QueryExecutor,
    built: Map<u64, Arc<Vec<KnnRecord>>>,
    results: KnnBruteForceResults,
    thg: Thing,
    exp: Expression,
)
    requires
        results.0@.len() == 1,
        is_knn_result(q, built, results.0@[0]),
    ensures
        knn_step(q, Some(&IterationStage::Iterate(Some(results))), thg, exp) == Step::<
            Value,
            KnnQuestion,
        >::Done(
            Value::Bool(
                q.0.knn_bruteforce_entries@.contains_key(exp.key) && has_record(
                    built_for(built, exp.key),
                    thg,
                ),
            ),
        ),
{
    let result = results.0@[0];
    assert(result.records@.dom().contains(exp.key) == q.0.knn_bruteforce_entries@.dom().contains(
        exp.key,
    ));
    if result.holds(exp.key, thg) {
        assert(results.holds(exp.key, thg));
    }
}

/// The results of further executors only add records.
pub proof fn law_further_results_add_records(
    few: KnnBruteForceResults,
    more: KnnBruteForceResults,
    exp: u64,
    thg: Thing,
)
    requires
        few.0@.is_prefix_of(more.0@),
        few.holds(exp, thg),
    ensures
        more.holds(exp, thg),
{
    let i = choose|i: int| 0 <= i < few.0@.len() && (#[trigger] few.0@[i]).holds(exp, thg);
    assert(more.0@[i] == few.0@[i]);
}

/// Distances are measured exactly before the second pass, and for the operators of the executor.
pub proof fn law_only_own_operators_are_measured(
    q: QueryExecutor,
    stage: Option<&IterationStage>,
    thg: Thing,
    exp: Expression,
)
    ensures
        knn_step(q, stage, thg, exp) is Ask <==> (q.0.knn_bruteforce_entries@.contains_key(exp.key)
            && !(stage is Some && *stage->0 is Iterate)),
{
}

/// In the second pass a record that was found for the expression by one of the executors is one
/// of the nearest.
pub proof fn law_found_record_is_nearest(
    q: QueryExecutor,
    results: KnnBruteForceResults,
    i: int,
    j: int,
    thg: Thing,
    exp: Expression,
)
    requires
        0 <= i < results.0@.len(),
        results.0@[i].records@.contains_key(exp.key),
        0 <= j < results.0@[i].records@[exp.key]@.len(),
        results.0@[i].records@[exp.key]@[j].thing.tb@ == thg.tb@,
        results.0@[i].records@[exp.key]@[j].thing.id@ == thg.id@,
    ensures
        knn_step(q, Some(&IterationStage::Iterate(Some(results))), thg, exp) == Step::<
            Value,
            KnnQuestion,
        >::Done(Value::Bool(true)),
{
    assert(same_thing(results.0@[i].records@[exp.key]@[j].thing, thg));
    assert(results.0@[i].holds(exp.key, thg));
}

/// And only such a record is: if a record is one of the nearest, this gives the executor that
/// found it and its place.
pub proof fn law_nearest_record_was_found(
    q: QueryExecutor,
    results: KnnBruteForceResults,
    thg: Thing,
    exp: Expression,
) -> (at: (int, int))
    ensures
        ({
            let step = knn_step(q, Some(&IterationStage::Iterate(Some(results))), thg, exp);
            let (i, j) = at;
            ||| step == Step::<Value, KnnQuestion>::Done(Value::Bool(false))
            ||| {
                &&& step == Step::<Value, KnnQuestion>::Done(Value::Bool(true))
                &&& 0 <= i < results.0@.len()
                &&& results.0@[i].records@.contains_key(exp.key)
                &&& 0 <= j < results.0@[i].records@[exp.key]@.len()
                &&& results.0@[i].records@[exp.key]@[j].thing.tb@ == thg.tb@
                &&& results.0@[i].records@[exp.key]@[j].thing.id@ == thg.id@
            }
        }),
{
    if results.holds(exp.key, thg) {
        let i = choose|i: int|
            0 <= i < results.0@.len() && (#[trigger] results.0@[i]).holds(exp.key, thg);
        let records = results.0@[i].records@[exp.key]@;
        let j = choose|j: int|
            0 <= j < records.len() && same_thing((#[trigger] records[j]).thing, thg);
        (i, j)
    } else {
        (0, 0)
    }
}

/// Without results no record is one of the nearest. Before the second pass, or without a stage,
/// the entry of the expression is to be measured, as the executor has it; without one the record
/// is none of the nearest.
pub proof fn law_entry_of_the_expression_is_measured(
    q: QueryExecutor,
    stage: Option<&IterationStage>,
    thg: Thing,
    exp: Expression,
)
    ensures
        knn_step(q, Some(&IterationStage::Iterate(None)), thg, exp) == Step::<
            Value,
            KnnQuestion,
        >::Done(Value::Bool(false)),
        stage is None || *stage->0 is CollectKnn || *stage->0 is BuildKnn ==> match knn_step(
            q,
            stage,
            thg,
            exp,
        ) {
            Step::Ask(question) => {
                &&& q.0.knn_bruteforce_entries@.contains_key(exp.key)
                &&& *question.entry == q.0.knn_bruteforce_entries@[exp.key]
            },
            Step::Done(v) => {
                &&& !q.0.knn_bruteforce_entries@.contains_key(exp.key)
                &&& v == Value::Bool(false)
            },
        },
{
}

/// The result has the records of exactly the executor's operators: those that were kept for the
/// operator, all of them in their order, or none where none were kept.
pub proof fn law_kept_records_are_the_result(
    q: QueryExecutor,
    built: Map<u64, Arc<Vec<KnnRecord>>>,
    result: KnnBruteForceResult,
    exp: u64,
)
    requires
        is_knn_result(q, built, result),
    ensures
        result.records@.contains_key(exp) <==> q.0.knn_bruteforce_entries@.contains_key(exp),
        result.records@.contains_key(exp) && built.contains_key(exp) ==> result.records@[exp]@
            == built[exp]@,
        result.records@.contains_key(exp) && !built.contains_key(exp) ==> result.records@[exp]@.len()
            == 0,
{
    assert(result.records@.dom().contains(exp) == q.0.knn_bruteforce_entries@.dom().contains(exp));
}

/// A record that has a distance counts for now and is kept with it; any other does not count and
/// is not kept.
pub proof fn law_measured_record_is_kept(thg: Thing, dist: Number)
    ensures
        measured(thg, Some(dist)).0 == Value::Bool(true),
        measured(thg, Some(dist)).1 is Some,
        (measured(thg, Some(dist)).1->0).thing == thg,
        (measured(thg, Some(dist)).1->0).dist == dist,
        measured(thg, None).0 == Value::Bool(false),
        measured(thg, None).1 is None,
{
}

/// A record that was measured and kept is found by the second pass.
pub proof fn law_kept_record_is_found(
    q: QueryExecutor,
    built: Map<u64, Arc<Vec<KnnRecord>>>,
    results: KnnBruteForceResults,
    j: int,
    thg: Thing,
    dist: Number,
    exp: Expression,
)
    requires
        results.0@.len() == 1,
        is_knn_result(q, built, results.0@[0]),
        q.0.knn_bruteforce_entries@.contains_key(exp.key),
        built.contains_key(exp.key),
        0 <= j < built[exp.key]@.len(),
        measured(thg, Some(dist)).1 == Some(built[exp.key]@[j]),
    ensures
        knn_step(q, Some(&IterationStage::Iterate(Some(results))), thg, exp) == Step::<
            Value,
            KnnQuestion,
        >::Done(Value::Bool(true)),
{
    law_kept_records_are_the_result(q, built, results.0@[0], exp.key);
    law_found_record_is_nearest(q, results, 0, j, thg, exp);
}

} // verus!
