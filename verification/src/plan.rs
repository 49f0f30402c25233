//! What the planner hands to the executor: the indexes of a table and what each of them is
//! asked for.
use crate::shared::{share, share_option};
use crate::value::{Number, RangeValue, Value};
use std::sync::Arc;
use vstd::prelude::*;

verus! {

/// The position of an iterator in the executor.
pub type IteratorRef = usize;

/// The number by which a query refers to one of its MATCHES operators.
pub type MatchRef = u8;

/// An expression of the query. Equal expressions carry equal keys, and unequal ones unequal keys:
/// expressions are compared by their keys alone.
#[derive(Debug, PartialEq, Eq)]
pub struct Expression {
    pub key: u64,
    /// How the expression is written.
    pub sql: String,
}

/// A path into a record, as it is written.
#[derive(Debug, PartialEq, Eq)]
pub struct Idiom(pub String);

/// The condition that the records found by a nearest-neighbour search have to meet.
#[derive(Debug, PartialEq, Eq)]
pub struct Cond(pub Expression);

/// A record identifier: the table, and the identifier within it as a text.
#[derive(Debug, PartialEq, Eq)]
pub struct Thing {
    pub tb: String,
    pub id: String,
}

impl Clone for Thing {
    fn clone(&self) -> (r: Self)
        ensures
            r == *self,
    {
        Thing { tb: self.tb.clone(), id: self.id.clone() }
    }
}

/// What an iterator knows of a record that it has found.
#[derive(Clone, Copy, Debug, PartialEq, Eq, Structural)]
pub struct IteratorRecord {
    pub irf: IteratorRef,
    /// The record's document in a full-text index.
    pub doc_id: Option<u64>,
    /// The distance found by a nearest-neighbour search, as the bits of a double.
    pub dist: Option<u64>,
}

impl IteratorRecord {
    pub fn doc_id(&self) -> (r: Option<u64>)
        ensures
            r == self.doc_id,
    {
        self.doc_id
    }
}

/// How the distance between two vectors is measured.
#[derive(Clone, Copy, Debug, PartialEq, Eq, Structural)]
pub enum Distance {
    Chebyshev,
    Cosine,
    Euclidean,
    Hamming,
    Jaccard,
    Manhattan,
    Minkowski(Number),
    Pearson,
}

/// The parameters of a full-text index.
#[derive(Debug, PartialEq, Eq)]
pub struct SearchParams {
    /// The name of the analyzer.
    pub az: String,
}

/// How the components of the vectors of an index are stored.
#[derive(Clone, Copy, Debug, PartialEq, Eq, Structural)]
pub enum VectorType {
    F64,
    F32,
    I64,
    I32,
    I16,
}

/// The parameters of an M-tree.
#[derive(Clone, Copy, Debug, PartialEq, Eq, Structural)]
pub struct MTreeParams {
    pub dimension: u16,
    pub distance: Distance,
    pub vector_type: VectorType,
    pub capacity: u16,
}

/// The parameters of an HNSW graph.
#[derive(Clone, Copy, Debug, PartialEq, Eq, Structural)]
pub struct HnswParams {
    pub dimension: u16,
    pub distance: Distance,
    pub vector_type: VectorType,
    pub m: u8,
    pub m0: u8,
    pub ef_construction: u16,
    pub extend_candidates: bool,
    pub keep_pruned_connections: bool,
    pub ml: Number,
}

/// The kind of an index, with its parameters.
#[derive(Debug, PartialEq, Eq)]
pub enum Index {
    Idx,
    Uniq,
    Search(SearchParams),
    MTree(MTreeParams),
    Hnsw(HnswParams),
}

/// The definition of an index.
#[derive(Debug, PartialEq, Eq)]
pub struct DefineIndexStatement {
    pub name: String,
    /// The table that is indexed.
    pub what: String,
    pub cols: Vec<Idiom>,
    pub index: Index,
}

/// An index of the table. Equal indexes have equal positions, and unequal ones unequal positions:
/// indexes are compared by their positions alone.
#[derive(Debug, PartialEq, Eq)]
pub struct IndexReference {
    pub idx: usize,
    pub def: Arc<DefineIndexStatement>,
}

impl Clone for IndexReference {
    fn clone(&self) -> (r: Self)
        ensures
            r == *self,
    {
        IndexReference { idx: self.idx, def: share(&self.def) }
    }
}

/// What an index is asked for.
#[derive(Debug, PartialEq, Eq)]
pub enum IndexOperator {
    /// The records whose key equals the value.
    Equality(Value),
    /// The records whose key equals one of the values of an array.
    Union(Value),
    /// The records that link to those found by other options.
    Join(Vec<IndexOption>),
    /// One end of a range, which the planner has not joined to the other.
    RangePart(Value),
    /// The records matching a full-text query, and the reference given to the operator.
    Matches(String, Option<MatchRef>),
    /// The `k` nearest neighbours of a vector.
    Knn(Arc<Vec<Number>>, u32),
    /// About `k` nearest neighbours of a vector, found with the given search effort.
    Ann(Arc<Vec<Number>>, u32, u32),
    /// All records in the order of the index, or in the reverse order.
    Order(bool),
}

/// The side of the operator on which the indexed path stands.
#[derive(Clone, Copy, Debug, PartialEq, Eq, Structural)]
pub enum IdiomPosition {
    Left,
    Right,
    Neither,
}

/// An index together with what it is asked for.
#[derive(Debug, PartialEq, Eq)]
pub struct IndexOption {
    pub ixr: IndexReference,
    pub id: Option<Arc<Idiom>>,
    pub id_pos: IdiomPosition,
    pub operator: Arc<IndexOperator>,
    /// How the planner explains this option.
    pub explanation: Value,
}

impl Clone for IndexOption {
    fn clone(&self) -> (r: Self)
        ensures
            r == *self,
    {
        IndexOption {
            ixr: self.ixr.clone(),
            id: share_option(&self.id),
            id_pos: self.id_pos,
            operator: share(&self.operator),
            explanation: self.explanation.clone(),
        }
    }
}

impl IndexOption {
    pub fn ix_ref(&self) -> (r: &IndexReference)
        ensures
            *r == self.ixr,
    {
        &self.ixr
    }

    /// The indexed path that the operator is applied to.
    pub fn id_ref(&self) -> (r: Option<&Idiom>)
        ensures
            r == (match self.id {
                Some(id) => Some(&*id),
                None => None,
            }),
    {
        match &self.id {
            Some(id) => Some(id),
            None => None,
        }
    }

    pub fn id_pos(&self) -> (r: IdiomPosition)
        ensures
            r == self.id_pos,
    {
        self.id_pos
    }

    pub fn op(&self) -> (r: &IndexOperator)
        ensures
            *r == *self.operator,
    {
        &self.operator
    }

    pub fn explain(&self) -> (r: Value)
        ensures
            r == self.explanation,
    {
        self.explanation.clone()
    }
}

/// The kind of the keys that a range of an index holds.
#[derive(Clone, Copy, Debug, PartialEq, Eq, Structural)]
pub enum ValueType {
    /// Keys of the kind of the ends of the range.
    Unspecified,
    NumberInt,
    NumberFloat,
    NumberDecimal,
}

/// A range of the keys of an index.
#[derive(Debug, PartialEq, Eq)]
pub struct IteratorRange {
    pub value_type: ValueType,
    pub from: RangeValue,
    pub to: RangeValue,
}

impl Clone for IteratorRange {
    fn clone(&self) -> (r: Self)
        ensures
            r == *self,
    {
        IteratorRange {
            value_type: self.value_type,
            from: self.from.clone(),
            to: self.to.clone(),
        }
    }
}

impl IteratorRange {
    pub fn new(value_type: ValueType, from: RangeValue, to: RangeValue) -> (r: Self)
        ensures
            r == (IteratorRange { value_type, from, to }),
    {
        IteratorRange { value_type, from, to }
    }

    /// The range between two ends that are kept by their owner.
    pub fn new_ref(value_type: ValueType, from: &RangeValue, to: &RangeValue) -> (r: Self)
        ensures
            r == (IteratorRange { value_type, from: *from, to: *to }),
    {
        IteratorRange { value_type, from: from.clone(), to: to.clone() }
    }
}

/// The options of a query.
#[derive(Debug, PartialEq, Eq)]
pub struct Options {
    /// The selected namespace.
    pub ns: Option<Arc<String>>,
    /// The selected database.
    pub db: Option<Arc<String>>,
    /// Whether the store can walk a range backwards.
    pub reverse_scan: bool,
}

#[derive(Debug, PartialEq, Eq)]
pub enum Error {
    /// No namespace is selected.
    NsEmpty,
    /// No database is selected.
    DbEmpty,
    /// Two MATCHES operators have the same reference.
    DuplicatedMatchRef { mr: MatchRef },
    /// A MATCHES operator without a full-text index.
    NoIndexFoundForMatch { exp: String },
    /// A record identifier has no stored form.
    Revision,
    /// The storage or an analyzer failed.
    Backend { message: String },
}

impl Clone for Options {
    fn clone(&self) -> (r: Self)
        ensures
            r == *self,
    {
        Options {
            ns: share_option(&self.ns),
            db: share_option(&self.db),
            reverse_scan: self.reverse_scan,
        }
    }
}

impl Options {
    /// Namespace and database, or the error for the first of the two that is not selected.
    pub open spec fn spec_ns_db(self) -> Result<(Arc<String>, Arc<String>), Error> {
        match (self.ns, self.db) {
            (None, _) => Err(Error::NsEmpty),
            (Some(_), None) => Err(Error::DbEmpty),
            (Some(ns), Some(db)) => Ok((ns, db)),
        }
    }

    pub fn ns_db(&self) -> (r: Result<(Arc<String>, Arc<String>), Error>)
        ensures
            r == self.spec_ns_db(),
    {
        match (&self.ns, &self.db) {
            (None, _) => Err(Error::NsEmpty),
            (Some(_), None) => Err(Error::DbEmpty),
            (Some(ns), Some(db)) => Ok((share(ns), share(db))),
        }
    }
}

/// A namespace and a database have to be selected, the namespace first, and then both are those
/// selected.
pub proof fn law_selection(opt: Options)
    ensures
        opt.ns is None ==> opt.spec_ns_db() == Err::<(Arc<String>, Arc<String>), Error>(
            Error::NsEmpty,
        ),
        opt.ns is Some && opt.db is None ==> opt.spec_ns_db() == Err::<
            (Arc<String>, Arc<String>),
            Error,
        >(Error::DbEmpty),
        opt.ns is Some && opt.db is Some ==> opt.spec_ns_db() == Ok::<
            (Arc<String>, Arc<String>),
            Error,
        >((opt.ns->0, opt.db->0)),
{
}

} // verus!
