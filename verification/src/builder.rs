//! Making an executor from what the planner has chosen.
//!
//! For each option of an index the caller is asked to open the index, where that has not been
//! done yet, and to query it; its reply becomes an entry of the executor.
use crate::executor::{
    are_served, FtEntry, FtIndex, FtQuery, HnswEntry, Inner, InnerQueryExecutor, KnnBruteForceEntry,
    KnnBruteForceExpression, KnnIteratorResult, KnnPriorityList, MtEntry,
};
use crate::plan::{
    Cond, Error, Expression, Index, IndexOperator, IndexOption, IndexReference, MatchRef, Options,
};
use crate::shared::{share, share_option};
use crate::value::Number;
use std::collections::{HashMap, VecDeque};
use std::sync::Arc;
use vstd::prelude::*;

verus! {

broadcast use vstd::std_specs::hash::group_hash_axioms;

/// An M-tree that the caller has opened, by the number under which the caller keeps it.
#[derive(Clone, Copy, Debug, PartialEq, Eq, Structural)]
pub struct MTreeIndex {
    pub handle: u64,
}

/// An HNSW graph that the caller has opened, by the number under which the caller keeps it.
#[derive(Clone, Copy, Debug, PartialEq, Eq, Structural)]
pub struct HnswIndex {
    pub handle: u64,
}

/// An index to query: one that is open, or one to be opened in a database.
#[derive(Debug, PartialEq, Eq)]
pub enum Target<H> {
    Opened(H),
    ToOpen { ns: Arc<String>, db: Arc<String>, ix: IndexReference },
}

/// A graph to query: one that is open, or one to be opened and brought up to date.
#[derive(Debug, PartialEq, Eq)]
pub enum HnswTarget {
    Opened(HnswIndex),
    ToOpen { opt: Options, ix: IndexReference },
}

/// What the caller is asked to do for an option.
#[allow(inconsistent_fields)]
#[derive(Debug, PartialEq, Eq)]
pub enum Request {
    Skip,
    /// Query a full-text index for a text; there is none for an operator other than MATCHES.
    FullText { target: Target<FtIndex>, text: Option<String> },
    /// Search an M-tree for the nearest neighbours that meet a condition.
    MTree {
        target: Target<MTreeIndex>,
        vector: Arc<Vec<Number>>,
        k: usize,
        cond: Option<Arc<Cond>>,
    },
    /// Search an HNSW graph for the nearest neighbours that meet a condition.
    Hnsw {
        target: HnswTarget,
        vector: Arc<Vec<Number>>,
        k: usize,
        ef: usize,
        cond: Option<Arc<Cond>>,
    },
}

/// What the caller has done.
pub enum Reply {
    Skipped,
    FullText { ft: FtIndex, query: Option<FtQuery> },
    MTree { mt: MTreeIndex, res: Arc<VecDeque<KnnIteratorResult>> },
    Hnsw { hnsw: HnswIndex, res: Arc<VecDeque<KnnIteratorResult>> },
    Failed(Error),
}

/// A reply answers a request: it is of its kind, keeps to an open index, and has found something
/// out of a text exactly where there is one. Nothing but skipping can be replied to `Skip`.
pub open spec fn answers(request: Request, reply: Reply) -> bool {
    match (request, reply) {
        (Request::Skip, Reply::Skipped) => true,
        (Request::Skip, _) => false,
        (_, Reply::Failed(_)) => true,
        (Request::FullText { target, text }, Reply::FullText { ft, query }) => {
            &&& target is Opened ==> target->Opened_0 == ft
            &&& text is Some <==> query is Some
        },
        (Request::MTree { target, .. }, Reply::MTree { mt, .. }) => target is Opened
            ==> target->Opened_0 == mt,
        (Request::Hnsw { target, .. }, Reply::Hnsw { hnsw, .. }) => target is Opened
            ==> target->Opened_0 == hnsw,
        _ => false,
    }
}

/// What has been gathered for an executor.
#[verifier::ext_equal]
pub struct Tables {
    pub ft_map: Map<usize, FtIndex>,
    pub mt_map: Map<usize, MTreeIndex>,
    pub hnsw_map: Map<usize, HnswIndex>,
    pub mr_entries: Map<MatchRef, FtEntry>,
    pub exp_entries: Map<u64, FtEntry>,
    pub mt_entries: Map<u64, MtEntry>,
    pub hnsw_entries: Map<u64, HnswEntry>,
}

/// Nothing gathered yet.
pub open spec fn no_tables() -> Tables {
    Tables {
        ft_map: Map::empty(),
        mt_map: Map::empty(),
        hnsw_map: Map::empty(),
        mr_entries: Map::empty(),
        exp_entries: Map::empty(),
        mt_entries: Map::empty(),
        hnsw_entries: Map::empty(),
    }
}

/// An index as it is open, or the database to open it in, or the error of the selection.
pub open spec fn target_of<H>(opt: Options, open: Map<usize, H>, ix: IndexReference) -> Result<
    Target<H>,
    Error,
> {
    if open.contains_key(ix.idx) {
        Ok(Target::Opened(open[ix.idx]))
    } else {
        match opt.spec_ns_db() {
            Ok((ns, db)) => Ok(Target::ToOpen { ns, db, ix }),
            Err(e) => Err(e),
        }
    }
}

/// The text of a MATCHES operator.
pub open spec fn text_of(op: IndexOperator) -> Option<String> {
    match op {
        IndexOperator::Matches(text, _) => Some(text),
        _ => None,
    }
}

/// The request that an option makes, given what has been gathered.
pub open spec fn request_of(
    opt: Options,
    cond: Option<Arc<Cond>>,
    t: Tables,
    io: IndexOption,
) -> Result<Request, Error> {
    match io.ixr.def.index {
        Index::Search(_) => match target_of(opt, t.ft_map, io.ixr) {
            Ok(target) => Ok(Request::FullText { target, text: text_of(*io.operator) }),
            Err(e) => Err(e),
        },
        Index::MTree(_) => match *io.operator {
            IndexOperator::Knn(vector, k) => match target_of(opt, t.mt_map, io.ixr) {
                Ok(target) => Ok(Request::MTree { target, vector, k: k as usize, cond }),
                Err(e) => Err(e),
            },
            _ => Ok(Request::Skip),
        },
        Index::Hnsw(_) => match *io.operator {
            IndexOperator::Ann(vector, k, ef) => Ok(
                Request::Hnsw {
                    target: if t.hnsw_map.contains_key(io.ixr.idx) {
                        HnswTarget::Opened(t.hnsw_map[io.ixr.idx])
                    } else {
                        HnswTarget::ToOpen { opt, ix: io.ixr }
                    },
                    vector,
                    k: k as usize,
                    ef: ef as usize,
                    cond,
                },
            ),
            _ => Ok(Request::Skip),
        },
        _ => Ok(Request::Skip),
    }
}

/// The entry for a MATCHES operator.
pub open spec fn ft_entry(ft: FtIndex, io: IndexOption, query: FtQuery) -> FtEntry {
    FtEntry(Arc::new(Inner { index_option: io, ft, query }))
}

/// What has been gathered once a reply to the request of an option is in.
pub open spec fn after_reply(t: Tables, exp: u64, io: IndexOption, reply: Reply) -> Result<
    Tables,
    Error,
> {
    let idx = io.ixr.idx;
    match reply {
        Reply::Skipped => Ok(t),
        Reply::Failed(e) => Err(e),
        Reply::FullText { ft, query } => {
            let t = Tables { ft_map: t.ft_map.insert(idx, ft), ..t };
            match (*io.operator, query) {
                (IndexOperator::Matches(_, mr), Some(query)) => {
                    let e = ft_entry(ft, io, query);
                    let exp_entries = t.exp_entries.insert(exp, e);
                    match mr {
                        Some(mr) => if t.mr_entries.contains_key(mr) {
                            Err(Error::DuplicatedMatchRef { mr })
                        } else {
                            Ok(
                                Tables {
                                    mr_entries: t.mr_entries.insert(mr, e),
                                    exp_entries,
                                    ..t
                                },
                            )
                        },
                        None => Ok(Tables { exp_entries, ..t }),
                    }
                },
                _ => Ok(t),
            }
        },
        Reply::MTree { mt, res } => Ok(
            Tables {
                mt_map: t.mt_map.insert(idx, mt),
                mt_entries: t.mt_entries.insert(exp, MtEntry { res }),
                ..t
            },
        ),
        Reply::Hnsw { hnsw, res } => Ok(
            Tables {
                hnsw_map: t.hnsw_map.insert(idx, hnsw),
                hnsw_entries: t.hnsw_entries.insert(exp, HnswEntry { res }),
                ..t
            },
        ),
    }
}

/// Entries with those of further nearest-neighbour operators that no index serves; of two for one
/// expression the later one stands.
pub open spec fn bruteforce_entries(
    entries: Map<u64, KnnBruteForceEntry>,
    kbtes: Seq<(u64, KnnBruteForceExpression)>,
) -> Map<u64, KnnBruteForceEntry>
    decreases kbtes.len(),
{
    if kbtes.len() == 0 {
        entries
    } else {
        let (exp, knn) = kbtes.last();
        bruteforce_entries(entries, kbtes.drop_last()).insert(
            exp,
            KnnBruteForceEntry {
                list: KnnPriorityList { k: knn.k as usize },
                id: knn.id,
                obj: knn.obj,
                d: knn.d,
            },
        )
    }
}

impl KnnPriorityList {
    pub fn new(k: usize) -> (r: Self)
        ensures
            r.k == k,
    {
        KnnPriorityList { k }
    }
}

impl FtEntry {
    /// The entry for an option; none for an operator other than MATCHES.
    pub fn new(ft: FtIndex, io: IndexOption, query: FtQuery) -> (r: Option<Self>)
        ensures
            r == (if *io.operator is Matches {
                Some(ft_entry(ft, io, query))
            } else {
                None
            }),
    {
        if let IndexOperator::Matches(_, _) = io.op() {
            Some(FtEntry(Arc::new(Inner { index_option: io, ft, query })))
        } else {
            None
        }
    }
}

impl MtEntry {
    /// The search that serves an operator: nearest neighbours that meet the condition, if any.
    pub fn request(
        target: Target<MTreeIndex>,
        o: &Arc<Vec<Number>>,
        k: u32,
        cond: &Option<Arc<Cond>>,
    ) -> (r: Request)
        ensures
            r == (Request::MTree { target, vector: *o, k: k as usize, cond: *cond }),
    {
        Request::MTree { target, vector: share(o), k: k as usize, cond: share_option(cond) }
    }

    pub fn new(res: Arc<VecDeque<KnnIteratorResult>>) -> (r: Self)
        ensures
            r.res == res,
    {
        MtEntry { res }
    }
}

impl HnswEntry {
    /// The search that serves an operator: nearest neighbours that meet the condition, if any.
    pub fn request(
        target: HnswTarget,
        v: &Arc<Vec<Number>>,
        n: u32,
        ef: u32,
        cond: &Option<Arc<Cond>>,
    ) -> (r: Request)
        ensures
            r == (Request::Hnsw {
                target,
                vector: *v,
                k: n as usize,
                ef: ef as usize,
                cond: *cond,
            }),
    {
        Request::Hnsw {
            target,
            vector: share(v),
            k: n as usize,
            ef: ef as usize,
            cond: share_option(cond),
        }
    }

    pub fn new(res: Arc<VecDeque<KnnIteratorResult>>) -> (r: Self)
        ensures
            r.res == res,
    {
        HnswEntry { res }
    }
}

/// An executor in the making.
pub struct ExecutorBuilder {
    pub opt: Options,
    pub knn_condition: Option<Arc<Cond>>,
    pub inner: InnerQueryExecutor,
    pub mt_map: HashMap<usize, MTreeIndex>,
    pub hnsw_map: HashMap<usize, HnswIndex>,
}

impl View for ExecutorBuilder {
    type V = Tables;

    open spec fn view(&self) -> Tables {
        Tables {
            ft_map: self.inner.ft_map@,
            mt_map: self.mt_map@,
            hnsw_map: self.hnsw_map@,
            mr_entries: self.inner.mr_entries@,
            exp_entries: self.inner.exp_entries@,
            mt_entries: self.inner.mt_entries@,
            hnsw_entries: self.inner.hnsw_entries@,
        }
    }
}

/// The executor for a table with what has been gathered, and nothing else yet.
pub open spec fn is_executor(e: InnerQueryExecutor, table: String, t: Tables) -> bool {
    &&& e.table == table
    &&& e.ft_map@ == t.ft_map
    &&& e.mr_entries@ == t.mr_entries
    &&& e.exp_entries@ == t.exp_entries
    &&& e.mt_entries@ == t.mt_entries
    &&& e.hnsw_entries@ == t.hnsw_entries
    &&& e.it_entries@.len() == 0
}

impl ExecutorBuilder {
    pub fn new(opt: Options, table: String, knn_condition: Option<Arc<Cond>>) -> (r: Self)
        ensures
            r.opt == opt,
            r.knn_condition == knn_condition,
            r@ == no_tables(),
            is_executor(r.inner, table, no_tables()),
            r.inner.knn_bruteforce_entries@ == Map::<u64, KnnBruteForceEntry>::empty(),
            r.inner.wf(),
    {
        ExecutorBuilder {
            opt,
            knn_condition,
            inner: InnerQueryExecutor {
                table,
                ft_map: HashMap::new(),
                mr_entries: HashMap::new(),
                exp_entries: HashMap::new(),
                it_entries: Vec::new(),
                mt_entries: HashMap::new(),
                hnsw_entries: HashMap::new(),
                knn_bruteforce_entries: HashMap::new(),
            },
            mt_map: HashMap::new(),
            hnsw_map: HashMap::new(),
        }
    }

    /// What the caller is to do for an option.
    pub fn request(&self, io: &IndexOption) -> (r: Result<Request, Error>)
        ensures
            r == request_of(self.opt, self.knn_condition, self@, *io),
    {
        let ixr = io.ix_ref();
        match &ixr.def.index {
            Index::Search(_) => {
                let target: Target<FtIndex> = match self.inner.ft_map.get(&ixr.idx) {
                    Some(ft) => Target::Opened(*ft),
                    None => match self.opt.ns_db() {
                        Ok((ns, db)) => Target::ToOpen { ns, db, ix: ixr.clone() },
                        Err(e) => {
                            return Err(e);
                        },
                    },
                };
                let text: Option<String> = if let IndexOperator::Matches(text, _) = io.op() {
                    Some(text.clone())
                } else {
                    None
                };
                Ok(Request::FullText { target, text })
            },
            Index::MTree(_) => {
                if let IndexOperator::Knn(a, k) = io.op() {
                    let target: Target<MTreeIndex> = match self.mt_map.get(&ixr.idx) {
                        Some(mt) => Target::Opened(*mt),
                        None => match self.opt.ns_db() {
                            Ok((ns, db)) => Target::ToOpen { ns, db, ix: ixr.clone() },
                            Err(e) => {
                                return Err(e);
                            },
                        },
                    };
                    Ok(MtEntry::request(target, a, *k, &self.knn_condition))
                } else {
                    Ok(Request::Skip)
                }
            },
            Index::Hnsw(_) => {
                if let IndexOperator::Ann(a, k, ef) = io.op() {
                    let target: HnswTarget = match self.hnsw_map.get(&ixr.idx) {
                        Some(hnsw) => HnswTarget::Opened(*hnsw),
                        None => HnswTarget::ToOpen { opt: self.opt.clone(), ix: ixr.clone() },
                    };
                    Ok(HnswEntry::request(target, a, *k, *ef, &self.knn_condition))
                } else {
                    Ok(Request::Skip)
                }
            },
            _ => Ok(Request::Skip),
        }
    }

    /// Takes in the reply to the request of an option. After an error the builder is of no
    /// further use.
    pub fn take_reply(&mut self, exp: &Expression, io: IndexOption, reply: Reply) -> (r: Result<
        (),
        Error,
    >)
        ensures
            match after_reply(old(self)@, exp.key, io, reply) {
                Ok(t) => r == Ok::<(), Error>(()) && final(self)@ == t,
                Err(e) => r == Err::<(), Error>(e),
            },
            final(self).opt == old(self).opt,
            final(self).knn_condition == old(self).knn_condition,
            final(self).inner.table == old(self).inner.table,
            final(self).inner.it_entries == old(self).inner.it_entries,
            final(self).inner.knn_bruteforce_entries == old(self).inner.knn_bruteforce_entries,
    {
        match reply {
            Reply::Skipped => Ok(()),
            Reply::Failed(e) => Err(e),
            Reply::FullText { ft, query } => {
                self.inner.ft_map.insert(io.ixr.idx, ft);
                if let Some(query) = query {
                    let mr: Option<MatchRef> = match io.op() {
                        IndexOperator::Matches(_, mr) => *mr,
                        _ => None,
                    };
                    if let Some(e) = FtEntry::new(ft, io, query) {
                        if let Some(mr) = mr {
                            if self.inner.mr_entries.insert(mr, e.clone()).is_some() {
                                return Err(Error::DuplicatedMatchRef { mr });
                            }
                        }
                        self.inner.exp_entries.insert(exp.key, e);
                    }
                }
                Ok(())
            },
            Reply::MTree { mt, res } => {
                self.mt_map.insert(io.ixr.idx, mt);
                self.inner.mt_entries.insert(exp.key, MtEntry::new(res));
                Ok(())
            },
            Reply::Hnsw { hnsw, res } => {
                self.hnsw_map.insert(io.ixr.idx, hnsw);
                self.inner.hnsw_entries.insert(exp.key, HnswEntry::new(res));
                Ok(())
            },
        }
    }

    /// The executor, with the nearest-neighbour operators that no index serves.
    pub fn finish(self, kbtes: Vec<(u64, KnnBruteForceExpression)>) -> (r: InnerQueryExecutor)
        ensures
            r.knn_bruteforce_entries@ == bruteforce_entries(
                self.inner.knn_bruteforce_entries@,
                kbtes@,
            ),
            r == (InnerQueryExecutor {
                knn_bruteforce_entries: r.knn_bruteforce_entries,
                ..self.inner
            }),
    {
        let mut inner = self.inner;
        for kbte in it: kbtes
            invariant
                it.seq() == kbtes@,
                inner.knn_bruteforce_entries@ == bruteforce_entries(
                    self.inner.knn_bruteforce_entries@,
                    kbtes@.take(it.index()),
                ),
                inner == (InnerQueryExecutor {
                    knn_bruteforce_entries: inner.knn_bruteforce_entries,
                    ..self.inner
                }),
        {
            let (exp, knn) = kbte;
            assert(kbtes@.take(it.index() + 1).drop_last() =~= kbtes@.take(it.index()));
            inner.knn_bruteforce_entries.insert(
                exp,
                KnnBruteForceEntry {
                    list: KnnPriorityList::new(knn.k as usize),
                    id: knn.id,
                    obj: knn.obj,
                    d: knn.d,
                },
            );
        }
        assert(kbtes@.take(kbtes@.len() as int) =~= kbtes@);
        inner
    }
}

/// An option with the expression that it serves and with the reply to its request.
pub type Answered = (Arc<Expression>, IndexOption, Reply);

/// What has been gathered once the replies to all requests are in, or the first error.
pub open spec fn gathered_from(opt: Options, cond: Option<Arc<Cond>>, ios: Seq<Answered>) -> Result<
    Tables,
    Error,
>
    decreases ios.len(),
{
    if ios.len() == 0 {
        Ok(no_tables())
    } else {
        match gathered_from(opt, cond, ios.drop_last()) {
            Ok(t) => match request_of(opt, cond, t, ios.last().1) {
                Ok(_) => after_reply(t, ios.last().0.key, ios.last().1, ios.last().2),
                Err(e) => Err(e),
            },
            Err(e) => Err(e),
        }
    }
}

/// The first `n` options are answered, in so far as they come to make a request.
pub open spec fn is_answered(
    opt: Options,
    cond: Option<Arc<Cond>>,
    ios: Seq<Answered>,
    n: int,
) -> bool {
    match gathered_from(opt, cond, ios.take(n)) {
        Ok(t) => match request_of(opt, cond, t, ios[n].1) {
            Ok(request) => answers(request, ios[n].2),
            Err(_) => true,
        },
        Err(_) => true,
    }
}

pub open spec fn all_answered(opt: Options, cond: Option<Arc<Cond>>, ios: Seq<Answered>) -> bool {
    forall|n: int| 0 <= n < ios.len() ==> #[trigger] is_answered(opt, cond, ios, n)
}

/// `r` is the executor for options whose requests have been answered, or the first error.
pub open spec fn makes_executor(
    opt: Options,
    table: String,
    ios: Seq<Answered>,
    kbtes: Seq<(u64, KnnBruteForceExpression)>,
    cond: Option<Arc<Cond>>,
    r: Result<InnerQueryExecutor, Error>,
) -> bool {
    match gathered_from(opt, cond, ios) {
        Ok(t) => {
            &&& r is Ok
            &&& is_executor(r->Ok_0, table, t)
            &&& r->Ok_0.knn_bruteforce_entries@ == bruteforce_entries(Map::empty(), kbtes)
        },
        Err(e) => r == Err::<InnerQueryExecutor, Error>(e),
    }
}

impl InnerQueryExecutor {
    /// The executor for options whose requests have been answered, or the first error: that of
    /// the selection of a database, of a reply, or of a reference given twice.
    pub fn new(
        opt: Options,
        table: String,
        ios: Vec<Answered>,
        kbtes: Vec<(u64, KnnBruteForceExpression)>,
        knn_condition: Option<Arc<Cond>>,
    ) -> (r: Result<Self, Error>)
        ensures
            match gathered_from(opt, knn_condition, ios@) {
                Ok(t) => {
                    &&& r is Ok
                    &&& is_executor(r->Ok_0, table, t)
                    &&& r->Ok_0.knn_bruteforce_entries@ == bruteforce_entries(Map::empty(), kbtes@)
                    &&& all_answered(opt, knn_condition, ios@) ==> r->Ok_0.wf()
                },
                Err(e) => r == Err::<Self, Error>(e),
            },
            makes_executor(opt, table, ios@, kbtes@, knn_condition, r),
    {
        let mut builder = ExecutorBuilder::new(opt, table, knn_condition);
        for answered in it: ios
            invariant
                it.seq() == ios@,
                builder.opt == opt,
                builder.knn_condition == knn_condition,
                gathered_from(opt, knn_condition, ios@.take(it.index())) == Ok::<Tables, Error>(
                    builder@,
                ),
                is_executor(builder.inner, table, builder@),
                builder.inner.knn_bruteforce_entries@ == Map::<u64, KnnBruteForceEntry>::empty(),
        {
            let (exp, io, reply) = answered;
            let ghost n = it.index();
            proof {
                assert(ios@.take(n + 1).drop_last() =~= ios@.take(n));
                assert(ios@.take(n + 1).last() == ios@[n]);
            }
            match builder.request(&io) {
                Ok(_) => match builder.take_reply(&exp, io, reply) {
                    Ok(()) => {},
                    Err(e) => {
                        proof {
                            lemma_error_stays(opt, knn_condition, ios@, n + 1);
                        }
                        return Err(e);
                    },
                },
                Err(e) => {
                    proof {
                        lemma_error_stays(opt, knn_condition, ios@, n + 1);
                    }
                    return Err(e);
                },
            }
        }
        proof {
            assert(ios@.take(ios@.len() as int) =~= ios@);
            if all_answered(opt, knn_condition, ios@) {
                law_executor_is_sound(opt, knn_condition, ios@);
            }
        }
        Ok(builder.finish(kbtes))
    }
}

/// An error in the making of an executor ends it.
proof fn lemma_error_stays(opt: Options, cond: Option<Arc<Cond>>, ios: Seq<Answered>, n: int)
    requires
        0 <= n <= ios.len(),
        gathered_from(opt, cond, ios.take(n)) is Err,
    ensures
        gathered_from(opt, cond, ios) == gathered_from(opt, cond, ios.take(n)),
    decreases ios.len() - n,
{
    if n == ios.len() {
        assert(ios.take(n) =~= ios);
    } else {
        assert(ios.take(n + 1).drop_last() =~= ios.take(n));
        lemma_error_stays(opt, cond, ios, n + 1);
    }
}

/// All entries are served by an index that is open.
pub open spec fn is_sound(t: Tables) -> bool {
    are_served(t.ft_map, t.exp_entries, t.mr_entries)
}

/// A reply that answers the request of an option keeps every entry served.
proof fn lemma_reply_keeps_sound(
    opt: Options,
    cond: Option<Arc<Cond>>,
    t: Tables,
    exp: u64,
    io: IndexOption,
    reply: Reply,
)
    requires
        is_sound(t),
        request_of(opt, cond, t, io) is Ok,
        answers(request_of(opt, cond, t, io)->Ok_0, reply),
        after_reply(t, exp, io, reply) is Ok,
    ensures
        is_sound(after_reply(t, exp, io, reply)->Ok_0),
{
}

/// The entries of an executor that was made from answered requests are all served by an index
/// that is open.
pub proof fn law_executor_is_sound(opt: Options, cond: Option<Arc<Cond>>, ios: Seq<Answered>)
    requires
        all_answered(opt, cond, ios),
        gathered_from(opt, cond, ios) is Ok,
    ensures
        is_sound(gathered_from(opt, cond, ios)->Ok_0),
    decreases ios.len(),
{
    if ios.len() > 0 {
        let before = ios.drop_last();
        lemma_answered_before(opt, cond, ios);
        law_executor_is_sound(opt, cond, before);
        lemma_reply_keeps_sound(
            opt,
            cond,
            gathered_from(opt, cond, before)->Ok_0,
            ios.last().0.key,
            ios.last().1,
            ios.last().2,
        );
    }
}

proof fn lemma_answered_before(opt: Options, cond: Option<Arc<Cond>>, ios: Seq<Answered>)
    requires
        ios.len() > 0,
        all_answered(opt, cond, ios),
    ensures
        all_answered(opt, cond, ios.drop_last()),
        is_answered(opt, cond, ios, ios.len() - 1),
        ios.take(ios.len() - 1) == ios.drop_last(),
{
    assert(ios.take(ios.len() - 1) =~= ios.drop_last());
    assert forall|n: int| 0 <= n < ios.drop_last().len() implies #[trigger] is_answered(
        opt,
        cond,
        ios.drop_last(),
        n,
    ) by {
        assert(is_answered(opt, cond, ios, n));
        assert(ios.drop_last().take(n) =~= ios.take(n));
    }
}

/// The reference of an option that asks a full-text index.
pub open spec fn reference_of(io: IndexOption) -> Option<MatchRef> {
    match (io.ixr.def.index, *io.operator) {
        (Index::Search(_), IndexOperator::Matches(_, mr)) => mr,
        _ => None,
    }
}

/// No two of the options have one reference.
pub open spec fn references_differ(ios: Seq<Answered>) -> bool {
    forall|i: int, j: int|
        0 <= i < j < ios.len() && reference_of((#[trigger] ios[i]).1) is Some ==> reference_of(
            ios[i].1,
        ) != reference_of((#[trigger] ios[j]).1)
}

/// An executor is only made where no two MATCHES operators have one reference, and then an
/// operator is found by each reference that was given, and by no other.
pub proof fn law_references_differ(opt: Options, cond: Option<Arc<Cond>>, ios: Seq<Answered>)
    requires
        all_answered(opt, cond, ios),
        gathered_from(opt, cond, ios) is Ok,
    ensures
        references_differ(ios),
        forall|mr: MatchRef| #[trigger]
            gathered_from(opt, cond, ios)->Ok_0.mr_entries.contains_key(mr) <==> exists|i: int|
                0 <= i < ios.len() && reference_of((#[trigger] ios[i]).1) == Some(mr),
    decreases ios.len(),
{
    if ios.len() > 0 {
        let before = ios.drop_last();
        lemma_answered_before(opt, cond, ios);
        law_references_differ(opt, cond, before);
        let t = gathered_from(opt, cond, before)->Ok_0;
        let n = ios.len() - 1;
        assert forall|mr: MatchRef| #[trigger]
            gathered_from(opt, cond, ios)->Ok_0.mr_entries.contains_key(mr) <==> exists|i: int|
                0 <= i < ios.len() && reference_of((#[trigger] ios[i]).1) == Some(mr) by {
            if t.mr_entries.contains_key(mr) {
                let i = choose|i: int|
                    0 <= i < before.len() && reference_of((#[trigger] before[i]).1) == Some(mr);
                assert(ios[i] == before[i]);
            }
            if exists|i: int|
                0 <= i < ios.len() && reference_of((#[trigger] ios[i]).1) == Some(mr) {
                let i = choose|i: int|
                    0 <= i < ios.len() && reference_of((#[trigger] ios[i]).1) == Some(mr);
                if i < n {
                    assert(before[i] == ios[i]);
                } else {
                    assert(reference_of(ios.last().1) == Some(mr));
                }
            }
            if reference_of(ios[n].1) == Some(mr) {
                assert(ios[n] == ios.last());
            }
        }
        assert forall|i: int, j: int|
            0 <= i < j < ios.len() && reference_of(
                (#[trigger] ios[i]).1,
            ) is Some implies reference_of(ios[i].1) != reference_of((#[trigger] ios[j]).1) by {
            assert(before[i] == ios[i]);
            if j < n {
                assert(before[j] == ios[j]);
            } else {
                assert(ios[j] == ios.last());
                let mr = reference_of(ios[i].1)->0;
                assert(t.mr_entries.contains_key(mr));
            }
        }
    }
}

/// A database is selected, and no reply is an error.
pub open spec fn nothing_fails(opt: Options, ios: Seq<Answered>) -> bool {
    &&& opt.spec_ns_db() is Ok
    &&& forall|i: int| 0 <= i < ios.len() ==> !((#[trigger] ios[i]).2 is Failed)
}

/// Option `j` is the first one with a reference that an earlier option has, too.
pub open spec fn is_first_duplicate(ios: Seq<Answered>, j: int) -> bool {
    &&& 0 <= j < ios.len()
    &&& reference_of(ios[j].1) is Some
    &&& references_differ(ios.take(j))
    &&& exists|i: int| 0 <= i < j && reference_of((#[trigger] ios[i]).1) == reference_of(ios[j].1)
}

/// Where nothing fails otherwise, an executor is made exactly if no two MATCHES operators have
/// one reference, and it is refused for the reference of the first operator that repeats one.
pub proof fn law_only_a_duplicate_is_refused(
    opt: Options,
    cond: Option<Arc<Cond>>,
    ios: Seq<Answered>,
)
    requires
        all_answered(opt, cond, ios),
        nothing_fails(opt, ios),
    ensures
        gathered_from(opt, cond, ios) is Ok <==> references_differ(ios),
        gathered_from(opt, cond, ios) matches Err(e) ==> exists|j: int| #[trigger]
            is_first_duplicate(ios, j) && e == (Error::DuplicatedMatchRef {
                mr: reference_of(ios[j].1)->0,
            }),
    decreases ios.len(),
{
    if gathered_from(opt, cond, ios) is Ok {
        law_references_differ(opt, cond, ios);
    } else if ios.len() > 0 {
        let before = ios.drop_last();
        lemma_answered_before(opt, cond, ios);
        assert(nothing_fails(opt, before)) by {
            assert forall|i: int| 0 <= i < before.len() implies !((#[trigger] before[i]).2 is Failed)
            by {
                assert(before[i] == ios[i]);
            }
        }
        let n = ios.len() - 1;
        assert(ios[n] == ios.last());
        law_only_a_duplicate_is_refused(opt, cond, before);
        if gathered_from(opt, cond, before) is Err {
            let e = gathered_from(opt, cond, before)->Err_0;
            let j = choose|j: int| #[trigger]
                is_first_duplicate(before, j) && e == (Error::DuplicatedMatchRef {
                    mr: reference_of(before[j].1)->0,
                });
            let i = choose|i: int|
                0 <= i < j && reference_of((#[trigger] before[i]).1) == reference_of(before[j].1);
            assert(ios[i] == before[i] && ios[j] == before[j]);
            assert(ios.take(j) =~= before.take(j));
            assert(is_first_duplicate(ios, j));
        } else {
            law_references_differ(opt, cond, before);
            let mr = reference_of(ios[n].1)->0;
            let t = gathered_from(opt, cond, before)->Ok_0;
            assert(t.mr_entries.contains_key(mr));
            let i = choose|i: int|
                0 <= i < before.len() && reference_of((#[trigger] before[i]).1) == Some(mr);
            assert(ios[i] == before[i]);
            assert(ios.take(n) =~= before);
            assert(is_first_duplicate(ios, n));
        }
    }
}

/// How an index serves an option.
pub enum Service {
    Text,
    Knn,
    Ann,
    Unserved,
}

pub open spec fn service_of(io: IndexOption) -> Service {
    match (io.ixr.def.index, *io.operator) {
        (Index::Search(_), IndexOperator::Matches(_, _)) => Service::Text,
        (Index::MTree(_), IndexOperator::Knn(_, _)) => Service::Knn,
        (Index::Hnsw(_), IndexOperator::Ann(_, _, _)) => Service::Ann,
        _ => Service::Unserved,
    }
}

/// Option `i` serves the expression with key `exp` in a way, and no later option does so.
pub open spec fn is_last(ios: Seq<Answered>, i: int, exp: u64, service: Service) -> bool {
    &&& 0 <= i < ios.len()
    &&& ios[i].0.key == exp
    &&& service_of(ios[i].1) == service
    &&& forall|j: int|
        i < j < ios.len() ==> !((#[trigger] ios[j]).0.key == exp && service_of(ios[j].1) == service)
}

/// The MATCHES entry for an expression is that of the last option that serves it, if there is one.
pub open spec fn text_as_planned(t: Tables, ios: Seq<Answered>, exp: u64) -> bool {
    &&& t.exp_entries.contains_key(exp) <==> exists|i: int| #[trigger]
        is_last(ios, i, exp, Service::Text)
    &&& forall|i: int| #[trigger]
        is_last(ios, i, exp, Service::Text) ==> ios[i].2 is FullText && t.exp_entries[exp]
            == ft_entry(ios[i].2->FullText_ft, ios[i].1, ios[i].2->query->0)
}

/// The same for the entries of an M-tree.
pub open spec fn knn_as_planned(t: Tables, ios: Seq<Answered>, exp: u64) -> bool {
    &&& t.mt_entries.contains_key(exp) <==> exists|i: int| #[trigger]
        is_last(ios, i, exp, Service::Knn)
    &&& forall|i: int| #[trigger]
        is_last(ios, i, exp, Service::Knn) ==> ios[i].2 is MTree && t.mt_entries[exp].res
            == ios[i].2->MTree_res
}

/// The same for the entries of an HNSW graph.
pub open spec fn ann_as_planned(t: Tables, ios: Seq<Answered>, exp: u64) -> bool {
    &&& t.hnsw_entries.contains_key(exp) <==> exists|i: int| #[trigger]
        is_last(ios, i, exp, Service::Ann)
    &&& forall|i: int| #[trigger]
        is_last(ios, i, exp, Service::Ann) ==> ios[i].2 is Hnsw && t.hnsw_entries[exp].res
            == ios[i].2->Hnsw_res
}

/// An executor has an entry for an expression exactly if an option serves the expression, and it
/// is that of the last such option with the reply to its request.
pub proof fn law_entries_are_those_planned(
    opt: Options,
    cond: Option<Arc<Cond>>,
    ios: Seq<Answered>,
    exp: u64,
)
    requires
        all_answered(opt, cond, ios),
        gathered_from(opt, cond, ios) is Ok,
    ensures
        text_as_planned(gathered_from(opt, cond, ios)->Ok_0, ios, exp),
        knn_as_planned(gathered_from(opt, cond, ios)->Ok_0, ios, exp),
        ann_as_planned(gathered_from(opt, cond, ios)->Ok_0, ios, exp),
    decreases ios.len(),
{
    if ios.len() > 0 {
        let before = ios.drop_last();
        let n = ios.len() - 1;
        lemma_answered_before(opt, cond, ios);
        law_entries_are_those_planned(opt, cond, before, exp);
        assert(ios[n] == ios.last());
        lemma_last_before(ios, exp, Service::Text);
        lemma_last_before(ios, exp, Service::Knn);
        lemma_last_before(ios, exp, Service::Ann);
    }
}

/// The last option that serves an expression is the last of all, or the last one before that.
proof fn lemma_last_before(ios: Seq<Answered>, exp: u64, service: Service)
    requires
        ios.len() > 0,
    ensures
        ios.last().0.key == exp && service_of(ios.last().1) == service ==> (forall|i: int| #[trigger]
            is_last(ios, i, exp, service) <==> i == ios.len() - 1) && is_last(
            ios,
            ios.len() - 1,
            exp,
            service,
        ),
        !(ios.last().0.key == exp && service_of(ios.last().1) == service) ==> forall|i: int|
            #![trigger is_last(ios, i, exp, service)]
            #![trigger is_last(ios.drop_last(), i, exp, service)]
            is_last(ios, i, exp, service) <==> is_last(ios.drop_last(), i, exp, service),
        forall|i: int| 0 <= i < ios.len() - 1 ==> ios[i] == #[trigger] ios.drop_last()[i],
{
    let before = ios.drop_last();
    let n = ios.len() - 1;
    assert(ios[n] == ios.last());
    if ios.last().0.key == exp && service_of(ios.last().1) == service {
        assert forall|i: int| #[trigger] is_last(ios, i, exp, service) implies i == n by {
            if i < n {
                assert(ios[n].0.key == exp);
            }
        }
    } else {
        assert forall|i: int| #[trigger]
            is_last(ios, i, exp, service) <==> is_last(before, i, exp, service) by {
            if is_last(ios, i, exp, service) {
                assert(ios[i] == before[i]);
                assert forall|j: int| i < j < before.len() implies !((#[trigger] before[j]).0.key
                    == exp && service_of(before[j].1) == service) by {
                    assert(before[j] == ios[j]);
                }
            }
            if is_last(before, i, exp, service) {
                assert forall|j: int| i < j < ios.len() implies !((#[trigger] ios[j]).0.key == exp
                    && service_of(ios[j].1) == service) by {
                    if j < n {
                        assert(before[j] == ios[j]);
                    }
                }
            }
        }
    }
}

/// An option of a full-text index.
pub open spec fn is_full_text(io: IndexOption) -> bool {
    io.ixr.def.index is Search
}

/// No index has anything to do for an option, and the caller is asked nothing.
pub open spec fn is_skipped(io: IndexOption) -> bool {
    !is_full_text(io) && service_of(io) is Unserved
}

/// The options without those that are skipped.
pub open spec fn without_skipped(ios: Seq<Answered>) -> Seq<Answered>
    decreases ios.len(),
{
    if ios.len() == 0 {
        Seq::empty()
    } else if is_skipped(ios.last().1) {
        without_skipped(ios.drop_last())
    } else {
        without_skipped(ios.drop_last()).push(ios.last())
    }
}

/// Options that are skipped change nothing: without them the same is gathered, or the same error
/// comes, and the requests of the others stay answered.
pub proof fn law_skipped_options_change_nothing(
    opt: Options,
    cond: Option<Arc<Cond>>,
    ios: Seq<Answered>,
)
    requires
        all_answered(opt, cond, ios),
    ensures
        gathered_from(opt, cond, without_skipped(ios)) == gathered_from(opt, cond, ios),
        all_answered(opt, cond, without_skipped(ios)),
    decreases ios.len(),
{
    if ios.len() > 0 {
        let before = ios.drop_last();
        let n = ios.len() - 1;
        lemma_answered_before(opt, cond, ios);
        law_skipped_options_change_nothing(opt, cond, before);
        assert(ios[n] == ios.last());
        if !is_skipped(ios.last().1) {
            let fewer = without_skipped(before);
            let all = without_skipped(ios);
            assert(all.drop_last() =~= fewer);
            assert forall|m: int| 0 <= m < all.len() implies #[trigger] is_answered(
                opt,
                cond,
                all,
                m,
            ) by {
                assert(all.take(m) =~= fewer.take(m));
                if m < fewer.len() {
                    assert(is_answered(opt, cond, fewer, m));
                } else {
                    assert(fewer.take(m) =~= fewer);
                }
            }
        }
    }
}

/// A full-text index is opened once: after it, requests for the same index are made of what was
/// opened.
pub proof fn law_full_text_index_is_opened_once(
    opt: Options,
    cond: Option<Arc<Cond>>,
    ios: Seq<Answered>,
    i: int,
    io: IndexOption,
)
    requires
        all_answered(opt, cond, ios),
        gathered_from(opt, cond, ios) is Ok,
        0 <= i < ios.len(),
        is_full_text(ios[i].1),
        is_full_text(io),
        io.ixr.idx == ios[i].1.ixr.idx,
    ensures
        ios[i].2 is FullText,
        request_of(opt, cond, gathered_from(opt, cond, ios)->Ok_0, io) == Ok::<Request, Error>(
            Request::FullText {
                target: Target::Opened(ios[i].2->FullText_ft),
                text: text_of(*io.operator),
            },
        ),
    decreases ios.len(),
{
    let before = ios.drop_last();
    lemma_answered_before(opt, cond, ios);
    if i < ios.len() - 1 {
        assert(before[i] == ios[i]);
        law_full_text_index_is_opened_once(opt, cond, before, i, io);
        let last = ios.last().1;
        if is_full_text(last) && last.ixr.idx == io.ixr.idx {
            law_full_text_index_is_opened_once(opt, cond, before, i, last);
        }
    } else {
        assert(ios[i] == ios.last());
    }
}

/// An M-tree is opened once: after it, requests for the same M-tree are made of what was opened.
pub proof fn law_mtree_is_opened_once(
    opt: Options,
    cond: Option<Arc<Cond>>,
    ios: Seq<Answered>,
    i: int,
    io: IndexOption,
)
    requires
        all_answered(opt, cond, ios),
        gathered_from(opt, cond, ios) is Ok,
        0 <= i < ios.len(),
        service_of(ios[i].1) is Knn,
        service_of(io) is Knn,
        io.ixr.idx == ios[i].1.ixr.idx,
    ensures
        ios[i].2 is MTree,
        request_of(opt, cond, gathered_from(opt, cond, ios)->Ok_0, io) == Ok::<Request, Error>(
            Request::MTree {
                target: Target::Opened(ios[i].2->mt),
                vector: io.operator->Knn_0,
                k: io.operator->Knn_1 as usize,
                cond,
            },
        ),
    decreases ios.len(),
{
    let before = ios.drop_last();
    lemma_answered_before(opt, cond, ios);
    if i < ios.len() - 1 {
        assert(before[i] == ios[i]);
        law_mtree_is_opened_once(opt, cond, before, i, io);
        let last = ios.last().1;
        if service_of(last) is Knn && last.ixr.idx == io.ixr.idx {
            law_mtree_is_opened_once(opt, cond, before, i, last);
        }
    } else {
        assert(ios[i] == ios.last());
    }
}

/// An HNSW graph is opened, and brought up to date, once: after it, requests for the same graph
/// are made of what was opened.
pub proof fn law_hnsw_graph_is_opened_once(
    opt: Options,
    cond: Option<Arc<Cond>>,
    ios: Seq<Answered>,
    i: int,
    io: IndexOption,
)
    requires
        all_answered(opt, cond, ios),
        gathered_from(opt, cond, ios) is Ok,
        0 <= i < ios.len(),
        service_of(ios[i].1) is Ann,
        service_of(io) is Ann,
        io.ixr.idx == ios[i].1.ixr.idx,
    ensures
        ios[i].2 is Hnsw,
        request_of(opt, cond, gathered_from(opt, cond, ios)->Ok_0, io) == Ok::<Request, Error>(
            Request::Hnsw {
                target: HnswTarget::Opened(ios[i].2->hnsw),
                vector: io.operator->Ann_0,
                k: io.operator->Ann_1 as usize,
                ef: io.operator->Ann_2 as usize,
                cond,
            },
        ),
    decreases ios.len(),
{
    let before = ios.drop_last();
    lemma_answered_before(opt, cond, ios);
    if i < ios.len() - 1 {
        assert(before[i] == ios[i]);
        law_hnsw_graph_is_opened_once(opt, cond, before, i, io);
        let last = ios.last().1;
        if service_of(last) is Ann && last.ixr.idx == io.ixr.idx {
            law_hnsw_graph_is_opened_once(opt, cond, before, i, last);
        }
    } else {
        assert(ios[i] == ios.last());
    }
}

/// An index that is open is queried as it is, another one is to be opened in the selected database,
/// and without a selection the request fails.
pub open spec fn is_target<H>(
    opt: Options,
    open: Map<usize, H>,
    ix: IndexReference,
    target: Result<Target<H>, Error>,
) -> bool {
    if open.contains_key(ix.idx) {
        target == Ok::<Target<H>, Error>(Target::Opened(open[ix.idx]))
    } else if opt.ns is None {
        target == Err::<Target<H>, Error>(Error::NsEmpty)
    } else if opt.db is None {
        target == Err::<Target<H>, Error>(Error::DbEmpty)
    } else {
        target == Ok::<Target<H>, Error>(
            Target::ToOpen { ns: opt.ns->0, db: opt.db->0, ix },
        )
    }
}

/// Every search of an M-tree that is asked for carries the vector and the number of neighbours of
/// the operator and the condition of the query, whether the M-tree is open or not.
pub proof fn law_mtree_request_carries_operator_and_condition(
    opt: Options,
    cond: Option<Arc<Cond>>,
    t: Tables,
    io: IndexOption,
    a: Arc<Vec<Number>>,
    k: u32,
)
    requires
        io.ixr.def.index is MTree,
        *io.operator == IndexOperator::Knn(a, k),
    ensures
        match request_of(opt, cond, t, io) {
            Ok(Request::MTree { target, vector, k: count, cond: condition }) => {
                &&& is_target(opt, t.mt_map, io.ixr, Ok(target))
                &&& vector == a
                &&& count == k
                &&& condition == cond
            },
            Err(e) => is_target(opt, t.mt_map, io.ixr, Err(e)),
            _ => false,
        },
{
}

/// Every search of an HNSW graph that is asked for carries the vector, the number of neighbours
/// and the effort of the operator and the condition of the query, whether the graph is open or
/// not; the request never fails.
pub proof fn law_hnsw_request_carries_operator_and_condition(
    opt: Options,
    cond: Option<Arc<Cond>>,
    t: Tables,
    io: IndexOption,
    a: Arc<Vec<Number>>,
    k: u32,
    ef: u32,
)
    requires
        io.ixr.def.index is Hnsw,
        *io.operator == IndexOperator::Ann(a, k, ef),
    ensures
        match request_of(opt, cond, t, io) {
            Ok(Request::Hnsw { target, vector, k: count, ef: effort, cond: condition }) => {
                &&& t.hnsw_map.contains_key(io.ixr.idx) ==> target == HnswTarget::Opened(
                    t.hnsw_map[io.ixr.idx],
                )
                &&& !t.hnsw_map.contains_key(io.ixr.idx) ==> target == (HnswTarget::ToOpen {
                    opt,
                    ix: io.ixr,
                })
                &&& vector == a
                &&& count == k
                &&& effort == ef
                &&& condition == cond
            },
            _ => false,
        },
{
}

/// A full-text index is asked for the text of a MATCHES operator, and only opened for any other.
pub proof fn law_full_text_request_carries_the_text(
    opt: Options,
    cond: Option<Arc<Cond>>,
    t: Tables,
    io: IndexOption,
)
    requires
        io.ixr.def.index is Search,
    ensures
        match request_of(opt, cond, t, io) {
            Ok(Request::FullText { target, text }) => {
                &&& is_target(opt, t.ft_map, io.ixr, Ok(target))
                &&& *io.operator is Matches ==> text == Some(io.operator->Matches_0)
                &&& !(*io.operator is Matches) ==> text is None
            },
            Err(e) => is_target(opt, t.ft_map, io.ixr, Err(e)),
            _ => false,
        },
{
}

/// Nothing is asked for any other index or operator.
pub proof fn law_nothing_else_is_asked(
    opt: Options,
    cond: Option<Arc<Cond>>,
    t: Tables,
    io: IndexOption,
)
    requires
        !(io.ixr.def.index is Search),
        !(io.ixr.def.index is MTree && *io.operator is Knn),
        !(io.ixr.def.index is Hnsw && *io.operator is Ann),
    ensures
        request_of(opt, cond, t, io) == Ok::<Request, Error>(Request::Skip),
{
}

/// What was found by a search of an M-tree or of an HNSW graph becomes the entry of the
/// expression, the index stays open, and nothing else changes.
pub proof fn law_search_becomes_an_entry(
    t: Tables,
    exp: u64,
    io: IndexOption,
    reply: Reply,
    other: u64,
)
    requires
        reply is MTree || reply is Hnsw,
    ensures
        after_reply(t, exp, io, reply) is Ok,
        ({
            let after = after_reply(t, exp, io, reply)->Ok_0;
            &&& after.ft_map == t.ft_map
            &&& after.mr_entries == t.mr_entries
            &&& after.exp_entries == t.exp_entries
            &&& reply is MTree ==> {
                &&& after.mt_map == t.mt_map.insert(io.ixr.idx, reply->mt)
                &&& after.mt_entries.contains_key(exp)
                &&& after.mt_entries[exp].res == reply->MTree_res
                &&& other != exp ==> after.mt_entries.contains_key(other)
                    == t.mt_entries.contains_key(other)
                &&& other != exp && t.mt_entries.contains_key(other) ==> after.mt_entries[other]
                    == t.mt_entries[other]
                &&& after.hnsw_map == t.hnsw_map
                &&& after.hnsw_entries == t.hnsw_entries
            }
            &&& reply is Hnsw ==> {
                &&& after.hnsw_map == t.hnsw_map.insert(io.ixr.idx, reply->hnsw)
                &&& after.hnsw_entries.contains_key(exp)
                &&& after.hnsw_entries[exp].res == reply->Hnsw_res
                &&& other != exp ==> after.hnsw_entries.contains_key(other)
                    == t.hnsw_entries.contains_key(other)
                &&& other != exp && t.hnsw_entries.contains_key(other) ==> after.hnsw_entries[other]
                    == t.hnsw_entries[other]
                &&& after.mt_map == t.mt_map
                &&& after.mt_entries == t.mt_entries
            }
        }),
{
}

/// What a full-text index answers to a MATCHES operator becomes the entry of the expression and,
/// if the operator has a reference, of that reference, which no other operator may have; the index
/// stays open, and nothing else changes.
pub proof fn law_answer_becomes_an_entry(
    t: Tables,
    exp: u64,
    io: IndexOption,
    ft: FtIndex,
    query: FtQuery,
    other: u64,
    other_mr: MatchRef,
)
    requires
        *io.operator is Matches,
    ensures
        ({
            let mr = io.operator->Matches_1;
            let r = after_reply(t, exp, io, Reply::FullText { ft, query: Some(query) });
            &&& mr is Some && t.mr_entries.contains_key(mr->0) <==> r is Err
            &&& r matches Err(e) ==> e == (Error::DuplicatedMatchRef { mr: mr->0 })
            &&& r matches Ok(after) ==> {
                &&& after.ft_map == t.ft_map.insert(io.ixr.idx, ft)
                &&& after.exp_entries.contains_key(exp)
                &&& after.exp_entries[exp].0.index_option == io
                &&& after.exp_entries[exp].0.ft == ft
                &&& after.exp_entries[exp].0.query == query
                &&& other != exp ==> after.exp_entries.contains_key(other)
                    == t.exp_entries.contains_key(other)
                &&& other != exp && t.exp_entries.contains_key(other) ==> after.exp_entries[other]
                    == t.exp_entries[other]
                &&& after.mr_entries.contains_key(other_mr) <==> t.mr_entries.contains_key(other_mr)
                    || mr == Some(other_mr)
                &&& mr == Some(other_mr) ==> after.mr_entries[other_mr] == after.exp_entries[exp]
                &&& mr != Some(other_mr) && t.mr_entries.contains_key(other_mr)
                    ==> after.mr_entries[other_mr] == t.mr_entries[other_mr]
                &&& after.mt_map == t.mt_map
                &&& after.hnsw_map == t.hnsw_map
                &&& after.mt_entries == t.mt_entries
                &&& after.hnsw_entries == t.hnsw_entries
            }
        }),
{
}

/// A reply that answers nothing leaves everything as it was, but for a full-text index that is now
/// open; a failure is passed on.
pub proof fn law_other_replies(t: Tables, exp: u64, io: IndexOption, ft: FtIndex, e: Error)
    ensures
        after_reply(t, exp, io, Reply::Skipped) == Ok::<Tables, Error>(t),
        after_reply(t, exp, io, Reply::Failed(e)) == Err::<Tables, Error>(e),
        after_reply(t, exp, io, Reply::FullText { ft, query: None }) == Ok::<Tables, Error>(
            Tables { ft_map: t.ft_map.insert(io.ixr.idx, ft), ..t },
        ),
{
}

/// An executor is made option by option: nothing is there at first, an error ends it, and each
/// option makes its request of what is there and has its reply taken in.
pub proof fn law_made_option_by_option(
    opt: Options,
    cond: Option<Arc<Cond>>,
    ios: Seq<Answered>,
    next: Answered,
    idx: usize,
    exp: u64,
    mr: MatchRef,
)
    ensures
        gathered_from(opt, cond, Seq::empty()) matches Ok(t) && {
            &&& !t.ft_map.contains_key(idx)
            &&& !t.mt_map.contains_key(idx)
            &&& !t.hnsw_map.contains_key(idx)
            &&& !t.mr_entries.contains_key(mr)
            &&& !t.exp_entries.contains_key(exp)
            &&& !t.mt_entries.contains_key(exp)
            &&& !t.hnsw_entries.contains_key(exp)
        },
        match gathered_from(opt, cond, ios) {
            Err(e) => gathered_from(opt, cond, ios.push(next)) == Err::<Tables, Error>(e),
            Ok(t) => match request_of(opt, cond, t, next.1) {
                Err(e) => gathered_from(opt, cond, ios.push(next)) == Err::<Tables, Error>(e),
                Ok(_) => gathered_from(opt, cond, ios.push(next)) == after_reply(
                    t,
                    next.0.key,
                    next.1,
                    next.2,
                ),
            },
        },
{
    assert(ios.push(next).drop_last() =~= ios);
}

/// Each nearest-neighbour operator without an index becomes the entry of its expression, with its
/// count, path, vector and distance; the other entries stay.
pub proof fn law_bruteforce_operators_become_entries(
    entries: Map<u64, KnnBruteForceEntry>,
    kbtes: Seq<(u64, KnnBruteForceExpression)>,
    exp: u64,
    knn: KnnBruteForceExpression,
    other: u64,
)
    ensures
        bruteforce_entries(entries, Seq::empty()) == entries,
        ({
            let before = bruteforce_entries(entries, kbtes);
            let after = bruteforce_entries(entries, kbtes.push((exp, knn)));
            &&& after.contains_key(exp)
            &&& after[exp].list.k == knn.k
            &&& after[exp].id == knn.id
            &&& after[exp].obj == knn.obj
            &&& after[exp].d == knn.d
            &&& other != exp ==> after.contains_key(other) == before.contains_key(other)
            &&& other != exp && before.contains_key(other) ==> after[other] == before[other]
        }),
{
    assert(kbtes.push((exp, knn)).drop_last() =~= kbtes);
}

/// The executor that is made has its table, what was gathered, and no iterators yet.
pub proof fn law_executor_holds_what_was_gathered(
    b: ExecutorBuilder,
    e: InnerQueryExecutor,
    table: String,
    t: Tables,
)
    ensures
        is_executor(e, table, t) <==> {
            &&& e.table == table
            &&& e.ft_map@ == t.ft_map
            &&& e.mr_entries@ == t.mr_entries
            &&& e.exp_entries@ == t.exp_entries
            &&& e.mt_entries@ == t.mt_entries
            &&& e.hnsw_entries@ == t.hnsw_entries
            &&& e.it_entries@.len() == 0
        },
        b@.ft_map == b.inner.ft_map@,
        b@.mt_map == b.mt_map@,
        b@.hnsw_map == b.hnsw_map@,
        b@.mr_entries == b.inner.mr_entries@,
        b@.exp_entries == b.inner.exp_entries@,
        b@.mt_entries == b.inner.mt_entries@,
        b@.hnsw_entries == b.inner.hnsw_entries@,
{
}

/// The operator of the last expression that is given a key is the entry for that key, and there
/// is an entry for no key that is not given.
proof fn lemma_bruteforce_entry(
    kbtes: Seq<(u64, KnnBruteForceExpression)>,
    i: int,
    exp: u64,
)
    ensures
        bruteforce_entries(Map::empty(), kbtes).contains_key(exp) ==> exists|j: int|
            0 <= j < kbtes.len() && (#[trigger] kbtes[j]).0 == exp,
        0 <= i < kbtes.len() && kbtes[i].0 == exp && (forall|j: int|
            i < j < kbtes.len() ==> (#[trigger] kbtes[j]).0 != exp) ==> {
            let entries = bruteforce_entries(Map::empty(), kbtes);
            &&& entries.contains_key(exp)
            &&& entries[exp].list.k == kbtes[i].1.k
            &&& entries[exp].id == kbtes[i].1.id
            &&& entries[exp].obj == kbtes[i].1.obj
            &&& entries[exp].d == kbtes[i].1.d
        },
    decreases kbtes.len(),
{
    if kbtes.len() > 0 {
        let before = kbtes.drop_last();
        lemma_bruteforce_entry(before, i, exp);
        if kbtes.last().0 == exp {
            assert(kbtes[kbtes.len() - 1].0 == exp);
        } else if bruteforce_entries(Map::empty(), before).contains_key(exp) {
            let j = choose|j: int| 0 <= j < before.len() && (#[trigger] before[j]).0 == exp;
            assert(kbtes[j].0 == exp);
        }
        if 0 <= i < before.len() && kbtes[i].0 == exp && (forall|j: int|
            i < j < kbtes.len() ==> (#[trigger] kbtes[j]).0 != exp) {
            assert(before[i] == kbtes[i]);
            assert(kbtes[kbtes.len() - 1].0 != exp);
            assert forall|j: int| i < j < before.len() implies (#[trigger] before[j]).0 != exp by {
                assert(kbtes[j].0 != exp);
            }
        }
    }
}

/// The executor fails exactly if the making fails, with the same error. Otherwise it works on the
/// given table, has what was gathered, no iterators yet, and as an entry for each key that is
/// given with a nearest-neighbour operator the last operator given with it, and no other entry.
pub proof fn law_executor_is_what_was_planned(
    opt: Options,
    table: String,
    ios: Seq<Answered>,
    kbtes: Seq<(u64, KnnBruteForceExpression)>,
    cond: Option<Arc<Cond>>,
    r: Result<InnerQueryExecutor, Error>,
    i: int,
    exp: u64,
)
    requires
        makes_executor(opt, table, ios, kbtes, cond, r),
    ensures
        r is Err <==> gathered_from(opt, cond, ios) is Err,
        r is Err ==> r->Err_0 == gathered_from(opt, cond, ios)->Err_0,
        r matches Ok(e) ==> {
            let t = gathered_from(opt, cond, ios)->Ok_0;
            &&& e.table == table
            &&& e.ft_map@ == t.ft_map
            &&& e.mr_entries@ == t.mr_entries
            &&& e.exp_entries@ == t.exp_entries
            &&& e.mt_entries@ == t.mt_entries
            &&& e.hnsw_entries@ == t.hnsw_entries
            &&& e.it_entries@.len() == 0
            &&& e.knn_bruteforce_entries@.contains_key(exp) ==> exists|j: int|
                0 <= j < kbtes.len() && (#[trigger] kbtes[j]).0 == exp
            &&& 0 <= i < kbtes.len() && kbtes[i].0 == exp && (forall|j: int|
                i < j < kbtes.len() ==> (#[trigger] kbtes[j]).0 != exp) ==> {
                &&& e.knn_bruteforce_entries@.contains_key(exp)
                &&& e.knn_bruteforce_entries@[exp].list.k == kbtes[i].1.k
                &&& e.knn_bruteforce_entries@[exp].id == kbtes[i].1.id
                &&& e.knn_bruteforce_entries@[exp].obj == kbtes[i].1.obj
                &&& e.knn_bruteforce_entries@[exp].d == kbtes[i].1.d
            }
        },
{
    lemma_bruteforce_entry(kbtes, i, exp);
}

/// A failure, or what the right kind of index gives, answers a request: the index that is open
/// already, and something out of a text exactly where there is one.
pub proof fn law_faithful_replies_answer(
    request: Request,
    ft: FtIndex,
    query: Option<FtQuery>,
    mt: MTreeIndex,
    hnsw: HnswIndex,
    res: Arc<VecDeque<KnnIteratorResult>>,
    e: Error,
)
    ensures
        answers(request, Reply::Skipped) <==> request is Skip,
        answers(request, Reply::Failed(e)) <==> !(request is Skip),
        answers(request, Reply::FullText { ft, query }) <==> match request {
            Request::FullText { target, text } => (target is ToOpen || target
                == Target::Opened(ft)) && (text is Some <==> query is Some),
            _ => false,
        },
        answers(request, Reply::MTree { mt, res }) <==> match request {
            Request::MTree { target, .. } => target is ToOpen || target == Target::Opened(mt),
            _ => false,
        },
        answers(request, Reply::Hnsw { hnsw, res }) <==> match request {
            Request::Hnsw { target, .. } => target is ToOpen || target == HnswTarget::Opened(hnsw),
            _ => false,
        },
{
}

/// Options are answered one after the other: a further one is if it does not come to make a
/// request, because of an earlier error or of its own, or if its reply answers its request.
pub proof fn law_answered_option_by_option(
    opt: Options,
    cond: Option<Arc<Cond>>,
    ios: Seq<Answered>,
    next: Answered,
)
    ensures
        all_answered(opt, cond, Seq::empty()),
        all_answered(opt, cond, ios.push(next)) <==> all_answered(opt, cond, ios)
            && match gathered_from(opt, cond, ios) {
            Err(_) => true,
            Ok(t) => match request_of(opt, cond, t, next.1) {
                Err(_) => true,
                Ok(request) => answers(request, next.2),
            },
        },
{
    let more = ios.push(next);
    let last = ios.len() as int;
    assert(more.take(last) =~= ios);
    assert forall|n: int| 0 <= n < last implies is_answered(opt, cond, more, n)
        == #[trigger] is_answered(opt, cond, ios, n) by {
        assert(more.take(n) =~= ios.take(n));
    }
    if all_answered(opt, cond, more) {
        assert(is_answered(opt, cond, more, last));
        assert forall|n: int| 0 <= n < last implies #[trigger] is_answered(opt, cond, ios, n) by {
            assert(is_answered(opt, cond, more, n));
        }
    }
    if all_answered(opt, cond, ios) && is_answered(opt, cond, more, last) {
        assert forall|n: int| 0 <= n < more.len() implies #[trigger] is_answered(
            opt,
            cond,
            more,
            n,
        ) by {
            if n < last {
                assert(is_answered(opt, cond, ios, n));
            }
        }
    }
}

} // verus!
