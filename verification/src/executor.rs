//! The executor of a query over the indexes of a table: what it holds, and what it looks up.
use crate::plan::{
    Distance, Expression, Idiom, IndexOption, IndexReference, IteratorRef, MatchRef, Thing,
};
use crate::shared::share;
use crate::value::{Field, Number, Object, RangeValue, Value};
use std::collections::{HashMap, HashSet, VecDeque};
use std::sync::Arc;
use vstd::prelude::*;
use vstd::std_specs::convert::FromSpec;

verus! {

broadcast use vstd::std_specs::hash::group_hash_axioms;

/// A nearest-neighbour operator that no index serves.
#[derive(Debug, PartialEq, Eq)]
pub struct KnnBruteForceExpression {
    pub k: u32,
    pub id: Idiom,
    pub obj: Arc<Vec<Number>>,
    pub d: Distance,
}

impl KnnBruteForceExpression {
    pub fn new(k: u32, id: Idiom, obj: Arc<Vec<Number>>, d: Distance) -> (r: Self)
        ensures
            r == (KnnBruteForceExpression { k, id, obj, d }),
    {
        KnnBruteForceExpression { k, id, obj, d }
    }
}

/// The list of the `k` records found nearest so far; its records are collected by the caller.
#[derive(Clone, Copy, Debug, PartialEq, Eq, Structural)]
pub struct KnnPriorityList {
    pub k: usize,
}

/// A nearest-neighbour operator being served by comparing every record.
#[derive(Debug, PartialEq, Eq)]
pub struct KnnBruteForceEntry {
    pub list: KnnPriorityList,
    pub id: Idiom,
    pub obj: Arc<Vec<Number>>,
    pub d: Distance,
}

/// A full-text index that the caller has opened, by the number under which the caller keeps it.
#[derive(Clone, Copy, Debug, PartialEq, Eq, Structural)]
pub struct FtIndex {
    pub handle: u64,
}

/// A scorer that the caller has made, by the number under which the caller keeps it.
#[derive(Clone, Copy, Debug, PartialEq, Eq, Structural)]
pub struct Scorer {
    pub handle: u64,
}

/// The terms of a text that an index knows, and whether there are others.
#[derive(Debug)]
pub struct TermsSet {
    pub set: HashSet<u64>,
    pub has_unknown_terms: bool,
}

/// A term with the documents that hold it; nothing for a term that the index does not know.
pub type TermDocs = Option<(u64, HashSet<u64>)>;

/// The documents for each term of a query.
pub type TermsDocs = Vec<TermDocs>;

/// What a full-text index answers to the text of a query.
pub struct FtQuery {
    pub terms_set: TermsSet,
    /// The terms in the order of the query, where the index knows them.
    pub terms_list: Vec<Option<u64>>,
    pub terms_docs: Arc<TermsDocs>,
    pub scorer: Option<Scorer>,
}

/// A MATCHES operator served by a full-text index.
pub struct FtEntry(pub Arc<Inner>);

pub struct Inner {
    pub index_option: IndexOption,
    pub ft: FtIndex,
    pub query: FtQuery,
}

/// A record found by a nearest-neighbour search, with its distance as the bits of a double.
#[derive(Debug, PartialEq, Eq)]
pub struct KnnIteratorResult {
    pub thing: Thing,
    pub dist: u64,
    pub record: Option<Value>,
}

/// A nearest-neighbour operator served by an M-tree.
pub struct MtEntry {
    pub res: Arc<VecDeque<KnnIteratorResult>>,
}

/// A nearest-neighbour operator served by an HNSW graph.
pub struct HnswEntry {
    pub res: Arc<VecDeque<KnnIteratorResult>>,
}

/// An iterator that the planner has chosen.
pub enum IteratorEntry {
    /// One option of one index, and the expression that it serves.
    Single(Option<Arc<Expression>>, IndexOption),
    /// A range of an index, and the keys of the expressions that make it up.
    Range(HashSet<u64>, IndexReference, RangeValue, RangeValue),
}

pub struct InnerQueryExecutor {
    pub table: String,
    /// The opened full-text indexes, by the position of the index.
    pub ft_map: HashMap<usize, FtIndex>,
    pub mr_entries: HashMap<MatchRef, FtEntry>,
    /// By the key of the expression, as are the maps below.
    pub exp_entries: HashMap<u64, FtEntry>,
    pub it_entries: Vec<IteratorEntry>,
    pub mt_entries: HashMap<u64, MtEntry>,
    pub hnsw_entries: HashMap<u64, HnswEntry>,
    pub knn_bruteforce_entries: HashMap<u64, KnnBruteForceEntry>,
}

pub struct QueryExecutor(pub Arc<InnerQueryExecutor>);

/// An answer, or what the caller has to ask for it.
#[derive(Debug, PartialEq, Eq)]
pub enum Step<T, A> {
    Done(T),
    Ask(A),
}

impl TermsSet {
    /// All terms are known, and there is one.
    pub open spec fn spec_is_matchable(self) -> bool {
        !self.has_unknown_terms && self.set@.len() != 0
    }

    pub fn is_matchable(&self) -> (r: bool)
        ensures
            r == self.spec_is_matchable(),
    {
        !self.has_unknown_terms && self.set.len() != 0
    }

    /// All terms are known, and all of them are among the others.
    pub fn is_subset(&self, other: &TermsSet) -> (r: bool)
        ensures
            r == (!self.has_unknown_terms && self.set@.subset_of(other.set@)),
    {
        if self.has_unknown_terms {
            return false;
        }
        let mut all: bool = true;
        let ghost mut seen: Set<u64> = Set::empty();
        for term in it: self.set.iter()
            invariant
                it.seq().unref().to_set() == self.set@,
                it.seq().no_duplicates(),
                it.seq().len() == self.set@.len(),
                seen.finite(),
                seen.len() == it.index(),
                forall|i: int|
                    it.index() <= i < it.seq().len() ==> !seen.contains(*#[trigger] it.seq()[i]),
                seen.subset_of(self.set@),
                all == seen.subset_of(other.set@),
        {
            assert(it.seq().unref()[it.index()] == *term);
            assert(it.seq().unref().contains(*term));
            assert(!seen.contains(*term));
            if !other.set.contains(term) {
                all = false;
            }
            proof {
                seen = seen.insert(*term);
            }
        }
        proof {
            vstd::set_lib::lemma_subset_equality(seen, self.set@);
        }
        all
    }
}

impl Clone for FtEntry {
    fn clone(&self) -> (r: Self)
        ensures
            r == *self,
    {
        FtEntry(share(&self.0))
    }
}

impl Clone for MtEntry {
    fn clone(&self) -> (r: Self)
        ensures
            r == *self,
    {
        MtEntry { res: share(&self.res) }
    }
}

impl Clone for HnswEntry {
    fn clone(&self) -> (r: Self)
        ensures
            r == *self,
    {
        HnswEntry { res: share(&self.res) }
    }
}

impl Clone for QueryExecutor {
    fn clone(&self) -> (r: Self)
        ensures
            r == *self,
    {
        QueryExecutor(share(&self.0))
    }
}

/// The explanation of one end of a range: an object with its fields `inclusive` and `value`.
pub open spec fn explains_end(v: Value, end: RangeValue) -> bool {
    match v {
        Value::Object(o) => {
            let fields = o.0@;
            &&& fields.len() == 2
            &&& fields[0].key@ == "inclusive"@
            &&& fields[0].value == Value::Bool(end.inclusive)
            &&& fields[1].key@ == "value"@
            &&& fields[1].value == end.value
        },
        _ => false,
    }
}

/// The explanation of a range: an object that names the index and explains both ends.
pub open spec fn explains_range(
    v: Value,
    ixr: IndexReference,
    from: RangeValue,
    to: RangeValue,
) -> bool {
    match v {
        Value::Object(o) => {
            let fields = o.0@;
            &&& fields.len() == 3
            &&& fields[0].key@ == "from"@
            &&& explains_end(fields[0].value, from)
            &&& fields[1].key@ == "index"@
            &&& fields[1].value == Value::Strand(ixr.def.name)
            &&& fields[2].key@ == "to"@
            &&& explains_end(fields[2].value, to)
        },
        _ => false,
    }
}

/// The explanation of an iterator.
pub open spec fn explains_entry(v: Value, entry: IteratorEntry) -> bool {
    match entry {
        IteratorEntry::Single(_, io) => v == io.explanation,
        IteratorEntry::Range(_, ixr, from, to) => explains_range(v, ixr, from, to),
    }
}

fn explain_end(end: &RangeValue) -> (r: Value)
    ensures
        explains_end(r, *end),
{
    let mut fields: Vec<Field> = Vec::new();
    fields.push(Field { key: "inclusive".to_owned(), value: Value::Bool(end.inclusive) });
    fields.push(Field { key: "value".to_owned(), value: end.value.clone() });
    Value::Object(Object(Arc::new(fields)))
}

impl IteratorEntry {
    /// What the plan of a query shows for this iterator.
    pub fn explain(&self) -> (r: Value)
        ensures
            explains_entry(r, *self),
    {
        match self {
            IteratorEntry::Single(_, io) => io.explain(),
            IteratorEntry::Range(_, ir, from, to) => {
                let mut fields: Vec<Field> = Vec::new();
                fields.push(Field { key: "from".to_owned(), value: explain_end(from) });
                fields.push(
                    Field { key: "index".to_owned(), value: Value::Strand(ir.def.name.clone()) },
                );
                fields.push(Field { key: "to".to_owned(), value: explain_end(to) });
                Value::Object(Object(Arc::new(fields)))
            },
        }
    }
}

/// A full-text entry stands for a MATCHES operator, and its index is among the open ones.
pub open spec fn is_served_by(open: Map<usize, FtIndex>, e: FtEntry) -> bool {
    &&& *e.0.index_option.operator is Matches
    &&& open.contains_key(e.0.index_option.ixr.idx)
    &&& open[e.0.index_option.ixr.idx] == e.0.ft
}

/// Every full-text entry is served by an open index, and those found by a reference carry that
/// reference.
pub open spec fn are_served(
    open: Map<usize, FtIndex>,
    exp_entries: Map<u64, FtEntry>,
    mr_entries: Map<MatchRef, FtEntry>,
) -> bool {
    &&& forall|exp: u64| #[trigger]
        exp_entries.contains_key(exp) ==> is_served_by(open, exp_entries[exp])
    &&& forall|mr: MatchRef| #[trigger]
        mr_entries.contains_key(mr) ==> {
            &&& is_served_by(open, mr_entries[mr])
            &&& mr_entries[mr].0.index_option.operator->Matches_1 == Some(mr)
        }
}

impl InnerQueryExecutor {
    /// An entry is served by an open index of this executor.
    pub open spec fn is_served(self, e: FtEntry) -> bool {
        is_served_by(self.ft_map@, e)
    }

    /// All entries are served.
    pub open spec fn wf(self) -> bool {
        are_served(self.ft_map@, self.exp_entries@, self.mr_entries@)
    }

    /// Adds an iterator, and returns the reference by which it is found.
    pub fn add_iterator(&mut self, it_entry: IteratorEntry) -> (ir: IteratorRef)
        ensures
            ir == old(self).it_entries@.len(),
            final(self).it_entries@ == old(self).it_entries@.push(it_entry),
            *final(self) == (InnerQueryExecutor {
                it_entries: final(self).it_entries,
                ..*old(self)
            }),
    {
        let ir: usize = self.it_entries.len();
        self.it_entries.push(it_entry);
        ir
    }
}

impl From<InnerQueryExecutor> for QueryExecutor {
    fn from(value: InnerQueryExecutor) -> (r: Self) {
        QueryExecutor(Arc::new(value))
    }
}

impl vstd::std_specs::convert::FromSpecImpl<InnerQueryExecutor> for QueryExecutor {
    open spec fn obeys_from_spec() -> bool {
        true
    }

    open spec fn from_spec(value: InnerQueryExecutor) -> Self {
        QueryExecutor(Arc::new(value))
    }
}

/// An expression is one of those that an iterator serves.
pub open spec fn serves(entries: Seq<IteratorEntry>, ir: IteratorRef, exp: u64) -> bool {
    ir < entries.len() && match entries[ir as int] {
        IteratorEntry::Single(Some(e), _) => exp == e.key,
        IteratorEntry::Single(None, _) => false,
        IteratorEntry::Range(es, _, _, _) => es@.contains(exp),
    }
}

/// A value explains an iterator, if there is one.
pub open spec fn explains(entries: Seq<IteratorEntry>, ir: IteratorRef, v: Value) -> bool {
    if ir < entries.len() {
        explains_entry(v, entries[ir as int])
    } else {
        v == Value::Absent
    }
}

impl QueryExecutor {
    /// Whether the executor works on a table.
    pub fn is_table(&self, tb: &str) -> (r: bool)
        ensures
            r == (self.0.table@ == tb@),
    {
        self.0.table == tb.to_owned()
    }

    /// Whether there is a nearest-neighbour operator that no index serves.
    pub fn has_bruteforce_knn(&self) -> (r: bool)
        ensures
            r == (self.0.knn_bruteforce_entries@.dom() != Set::<u64>::empty()),
    {
        !self.0.knn_bruteforce_entries.is_empty()
    }

    /// Returns `true` if the expression is matching the current iterator.
    pub fn is_iterator_expression(&self, ir: IteratorRef, exp: &Expression) -> (r: bool)
        ensures
            r == (ir < self.0.it_entries@.len() && match self.0.it_entries@[ir as int] {
                IteratorEntry::Single(Some(e), _) => exp.key == e.key,
                IteratorEntry::Single(None, _) => false,
                IteratorEntry::Range(es, _, _, _) => es@.contains(exp.key),
            }),
            r == serves(self.0.it_entries@, ir, exp.key),
    {
        if ir < self.0.it_entries.len() {
            match &self.0.it_entries[ir] {
                IteratorEntry::Single(Some(e), _) => exp.key == e.key,
                IteratorEntry::Range(es, _, _, _) => es.contains(&exp.key),
                _ => false,
            }
        } else {
            false
        }
    }

    /// What the plan shows for an iterator; nothing where there is no such iterator.
    pub fn explain(&self, ir: IteratorRef) -> (r: Value)
        ensures
            ir < self.0.it_entries@.len() ==> explains_entry(r, self.0.it_entries@[ir as int]),
            ir >= self.0.it_entries@.len() ==> r == Value::Absent,
            explains(self.0.it_entries@, ir, r),
    {
        if ir < self.0.it_entries.len() {
            self.0.it_entries[ir].explain()
        } else {
            Value::Absent
        }
    }

    /// The reference that a value gives: the low byte of a number as an integer.
    pub open spec fn match_ref_of(match_ref: Value) -> Option<MatchRef> {
        match match_ref {
            Value::Number(n) => Some((n.spec_to_int() % 256) as u8),
            _ => None,
        }
    }

    pub fn get_match_ref(match_ref: &Value) -> (r: Option<MatchRef>)
        ensures
            r == Self::match_ref_of(*match_ref),
    {
        if let Value::Number(n) = match_ref {
            let i: i64 = n.to_int();
            assert(i as u8 == i % 256) by (bit_vector);
            let m: u8 = i as u8;
            Some(m)
        } else {
            None
        }
    }

    /// The entry of the MATCHES operator that a value refers to.
    pub open spec fn ft_entry_of(self, match_ref: Value) -> Option<FtEntry> {
        match Self::match_ref_of(match_ref) {
            Some(mr) => if self.0.mr_entries@.contains_key(mr) {
                Some(self.0.mr_entries@[mr])
            } else {
                None
            },
            None => None,
        }
    }

    pub fn get_ft_entry(&self, match_ref: &Value) -> (r: Option<&FtEntry>)
        ensures
            match r {
                Some(e) => self.ft_entry_of(*match_ref) == Some(*e),
                None => self.ft_entry_of(*match_ref) is None,
            },
    {
        if let Some(mr) = Self::get_match_ref(match_ref) {
            self.0.mr_entries.get(&mr)
        } else {
            None
        }
    }

    /// An entry with the open index that serves it.
    pub open spec fn ft_entry_and_index_of(self, match_ref: Value) -> Option<(FtEntry, FtIndex)> {
        match self.ft_entry_of(match_ref) {
            Some(e) => if self.0.ft_map@.contains_key(e.0.index_option.ixr.idx) {
                Some((e, self.0.ft_map@[e.0.index_option.ixr.idx]))
            } else {
                None
            },
            None => None,
        }
    }

    pub fn get_ft_entry_and_index(&self, match_ref: &Value) -> (r: Option<(&FtEntry, &FtIndex)>)
        ensures
            match r {
                Some((e, ft)) => self.ft_entry_and_index_of(*match_ref) == Some((*e, *ft)),
                None => self.ft_entry_and_index_of(*match_ref) is None,
            },
    {
        if let Some(e) = self.get_ft_entry(match_ref) {
            if let Some(ft) = self.0.ft_map.get(&e.0.index_option.ixr.idx) {
                return Some((e, ft));
            }
        }
        None
    }
}

/// An entry that is found by its reference always comes with its index, the one that it was
/// made with.
pub proof fn law_entry_comes_with_its_index(q: QueryExecutor, match_ref: Value)
    requires
        q.0.wf(),
    ensures
        q.ft_entry_and_index_of(match_ref) is Some <==> q.ft_entry_of(match_ref) is Some,
        q.ft_entry_of(match_ref) matches Some(e) ==> q.ft_entry_and_index_of(match_ref) == Some(
            (e, e.0.ft),
        ),
{
}

/// The iterator that was added last serves its own expression or the expressions of its range,
/// and no other; adding it changes nothing for the earlier ones, and there is none behind it.
pub proof fn law_added_iterator_serves_its_expressions(
    entries: Seq<IteratorEntry>,
    entry: IteratorEntry,
    ir: IteratorRef,
    exp: u64,
)
    ensures
        ir == entries.len() ==> match entry {
            IteratorEntry::Single(e, _) => serves(entries.push(entry), ir, exp) <==> e is Some
                && (e->0).key == exp,
            IteratorEntry::Range(es, _, _, _) => serves(entries.push(entry), ir, exp)
                <==> es@.contains(exp),
        },
        ir < entries.len() ==> serves(entries.push(entry), ir, exp) == serves(entries, ir, exp),
        ir > entries.len() ==> !serves(entries.push(entry), ir, exp),
        !serves(Seq::empty(), ir, exp),
{
}

/// The iterator that was added last is explained as the planner explains its option, or by its
/// index and the two ends of its range, in the order of the names of the fields; adding it
/// changes nothing for the earlier ones, and there is nothing to explain behind it.
pub proof fn law_added_iterator_is_explained(
    entries: Seq<IteratorEntry>,
    entry: IteratorEntry,
    ir: IteratorRef,
    v: Value,
)
    requires
        explains(entries.push(entry), ir, v),
    ensures
        ir < entries.len() ==> explains(entries, ir, v),
        ir > entries.len() ==> v == Value::Absent,
        ir == entries.len() ==> match entry {
            IteratorEntry::Single(_, io) => v == io.explanation,
            IteratorEntry::Range(_, ixr, from, to) => {
                &&& v is Object
                &&& (v->Object_0).0@.len() == 3
                &&& (v->Object_0).0@[0].key@ == "from"@
                &&& explains_end((v->Object_0).0@[0].value, from)
                &&& (v->Object_0).0@[1].key@ == "index"@
                &&& (v->Object_0).0@[1].value == Value::Strand(ixr.def.name)
                &&& (v->Object_0).0@[2].key@ == "to"@
                &&& explains_end((v->Object_0).0@[2].value, to)
            },
        },
{
}

/// An end of a range is explained by whether it belongs to the range, and by its value.
pub proof fn law_end_is_explained(v: Value, end: RangeValue)
    requires
        explains_end(v, end),
    ensures
        v is Object,
        (v->Object_0).0@.len() == 2,
        (v->Object_0).0@[0].key@ == "inclusive"@,
        (v->Object_0).0@[0].value == Value::Bool(end.inclusive),
        (v->Object_0).0@[1].key@ == "value"@,
        (v->Object_0).0@[1].value == end.value,
{
}

/// Two ranges that are explained alike have the same name of their index and the same ends.
pub proof fn law_explanation_tells_ranges_apart(
    v: Value,
    ixr: IndexReference,
    from: RangeValue,
    to: RangeValue,
    ixr2: IndexReference,
    from2: RangeValue,
    to2: RangeValue,
)
    requires
        explains_range(v, ixr, from, to),
        explains_range(v, ixr2, from2, to2),
    ensures
        ixr.def.name == ixr2.def.name,
        from == from2,
        to == to2,
{
}

/// The reference that a number gives differs from the number as an integer by a multiple of 256;
/// no other value gives one.
pub proof fn law_reference_is_the_low_byte(n: Number, v: Value)
    ensures
        QueryExecutor::match_ref_of(Value::Number(n)) is Some,
        (n.spec_to_int() - QueryExecutor::match_ref_of(Value::Number(n))->0) % 256 == 0,
        0 <= n.spec_to_int() < 256 ==> QueryExecutor::match_ref_of(Value::Number(n))->0
            == n.spec_to_int(),
        !(v is Number) ==> QueryExecutor::match_ref_of(v) is None,
{
}

/// The entry that a value refers to is the one with its reference; it comes with the open index
/// at the position of its option's index.
pub proof fn law_entry_is_found_by_its_reference(q: QueryExecutor, n: Number, mr: u8)
    requires
        mr == n.spec_to_int() % 256,
    ensures
        q.ft_entry_of(Value::Number(n)) is Some <==> q.0.mr_entries@.contains_key(mr),
        q.ft_entry_of(Value::Number(n)) matches Some(e) ==> {
            &&& e == q.0.mr_entries@[mr]
            &&& match q.ft_entry_and_index_of(Value::Number(n)) {
                Some(found) => {
                    &&& found.0 == e
                    &&& q.0.ft_map@.contains_key(e.0.index_option.ixr.idx)
                    &&& found.1 == q.0.ft_map@[e.0.index_option.ixr.idx]
                },
                None => !q.0.ft_map@.contains_key(e.0.index_option.ixr.idx),
            }
        },
{
}

/// A text, which has only so many terms, can be matched exactly if all its terms are known and one
/// of them is there.
pub proof fn law_terms_are_matchable(terms: TermsSet)
    requires
        terms.set@.finite(),
    ensures
        terms.spec_is_matchable() <==> !terms.has_unknown_terms && exists|term: u64|
            terms.set@.contains(term),
{
    if exists|term: u64| terms.set@.contains(term) {
        let term = choose|term: u64| terms.set@.contains(term);
        assert(terms.set@.remove(term).len() + 1 == terms.set@.len());
    } else {
        assert(terms.set@ =~= Set::empty());
    }
}

/// Every entry of a sound executor stands for a MATCHES operator whose index is open, and is the
/// one that the entry was made with; an entry found by a reference has that reference.
pub proof fn law_entries_are_served(e: InnerQueryExecutor, exp: u64, mr: MatchRef)
    requires
        e.wf(),
    ensures
        e.exp_entries@.contains_key(exp) ==> {
            let io = e.exp_entries@[exp].0.index_option;
            &&& *io.operator is Matches
            &&& e.ft_map@.contains_key(io.ixr.idx)
            &&& e.ft_map@[io.ixr.idx] == e.exp_entries@[exp].0.ft
        },
        e.mr_entries@.contains_key(mr) ==> {
            let io = e.mr_entries@[mr].0.index_option;
            &&& *io.operator is Matches
            &&& io.operator->Matches_1 == Some(mr)
            &&& e.ft_map@.contains_key(io.ixr.idx)
            &&& e.ft_map@[io.ixr.idx] == e.mr_entries@[mr].0.ft
        },
{
}

/// An executor is passed on as it is.
pub proof fn law_executor_is_wrapped_as_it_is(e: InnerQueryExecutor)
    ensures
        *<QueryExecutor as FromSpec<InnerQueryExecutor>>::from_spec(e).0 == e,
{
}

} // verus!
