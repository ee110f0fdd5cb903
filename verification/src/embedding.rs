use crate::fetch::{ConditionData, ConditionDataView, NOT_AVAILABLE, NO_SUMMARY};
use crate::rank::{
    beats, index_values, is_ranking, key_values, lemma_ranking_exists, rank_order, ranking,
};
use crate::text::same_text;
use vstd::prelude::*;
use vstd::string::StrSliceExecFns;
use vstd::string::StringExecFns;

verus! {

/// One of the three sides of a condition that are indexed apart from each other.
#[derive(Clone, Copy, Debug, PartialEq, Eq, Structural)]
pub enum Facet {
    Description,
    Etiology,
    Manifestation,
}

/// The tag that hits of `facet` carry.
pub open spec fn facet_label(facet: Facet) -> Seq<char> {
    match facet {
        Facet::Description => "description"@,
        Facet::Etiology => "etiology"@,
        Facet::Manifestation => "manifestation"@,
    }
}

/// The name of the table that holds the records of `facet`.
pub open spec fn facet_table_name(facet: Facet) -> Seq<char> {
    match facet {
        Facet::Description => "description_embeddings"@,
        Facet::Etiology => "etiology_embeddings"@,
        Facet::Manifestation => "manifestation_embeddings"@,
    }
}

impl Facet {
    /// The tag that hits of this facet carry.
    pub fn label(self) -> (r: &'static str)
        ensures
            r@ == facet_label(self),
    {
        match self {
            Facet::Description => "description",
            Facet::Etiology => "etiology",
            Facet::Manifestation => "manifestation",
        }
    }

    /// The name of the table that holds the records of this facet.
    pub fn table_name(self) -> (r: &'static str)
        ensures
            r@ == facet_table_name(self),
    {
        match self {
            Facet::Description => "description_embeddings",
            Facet::Etiology => "etiology_embeddings",
            Facet::Manifestation => "manifestation_embeddings",
        }
    }
}

/// A stored record together with its similarity to the query. The similarity is an integer
/// that orders records as their cosine similarity does: the greater, the closer.
#[derive(Debug, Clone)]
pub struct ScoredRecord {
    pub condition_name: String,
    pub text: String,
    pub similarity: i32,
}

/// What a `ScoredRecord` says.
pub struct ScoredRecordView {
    pub condition_name: Seq<char>,
    pub text: Seq<char>,
    pub similarity: int,
}

impl View for ScoredRecord {
    type V = ScoredRecordView;

    open spec fn view(&self) -> ScoredRecordView {
        ScoredRecordView {
            condition_name: self.condition_name@,
            text: self.text@,
            similarity: self.similarity as int,
        }
    }
}

impl DeepView for ScoredRecord {
    type V = ScoredRecordView;

    open spec fn deep_view(&self) -> ScoredRecordView {
        self@
    }
}

/// One hit of a search in one facet.
#[derive(Debug, Clone)]
pub struct SearchResult {
    pub condition_name: String,
    pub text: String,
    pub embedding_type: String,
    pub similarity: i32,
}

/// What a `SearchResult` says.
pub struct SearchResultView {
    pub condition_name: Seq<char>,
    pub text: Seq<char>,
    pub embedding_type: Seq<char>,
    pub similarity: int,
}

impl View for SearchResult {
    type V = SearchResultView;

    open spec fn view(&self) -> SearchResultView {
        SearchResultView {
            condition_name: self.condition_name@,
            text: self.text@,
            embedding_type: self.embedding_type@,
            similarity: self.similarity as int,
        }
    }
}

impl DeepView for SearchResult {
    type V = SearchResultView;

    open spec fn deep_view(&self) -> SearchResultView {
        self@
    }
}

/// The hit that `record` makes in `facet`.
pub open spec fn hit_of(record: ScoredRecordView, facet: Facet) -> SearchResultView {
    SearchResultView {
        condition_name: record.condition_name,
        text: record.text,
        embedding_type: facet_label(facet),
        similarity: record.similarity,
    }
}

/// The similarities of `records`, one for each.
pub open spec fn similarities(records: Seq<ScoredRecordView>) -> Seq<int> {
    Seq::new(records.len(), |i: int| records[i].similarity)
}

/// How many hits a search gives: `limit`, or all the records where they are fewer.
pub open spec fn hit_count(records: nat, limit: nat) -> nat {
    if limit <= records {
        limit
    } else {
        records
    }
}

/// The hits of a search among `records`: the first `limit` of them by falling similarity,
/// records of one similarity in the order in which they are stored.
pub open spec fn search_hits(records: Seq<ScoredRecordView>, limit: nat, facet: Facet) -> Seq<
    SearchResultView,
> {
    let order = ranking(similarities(records));
    Seq::new(hit_count(records.len(), limit), |p: int| hit_of(records[order[p]], facet))
}

/// The hits of a search stand by falling similarity.
pub proof fn lemma_search_hits_fall(records: Seq<ScoredRecordView>, limit: nat, facet: Facet)
    ensures
        forall|a: int, b: int|
            0 <= a <= b < search_hits(records, limit, facet).len() ==> search_hits(
                records,
                limit,
                facet,
            )[a].similarity >= search_hits(records, limit, facet)[b].similarity,
{
    let sims = similarities(records);
    let order = ranking(sims);
    lemma_ranking_exists(sims);
    assert forall|a: int, b: int|
        0 <= a <= b < search_hits(records, limit, facet).len() implies search_hits(
        records,
        limit,
        facet,
    )[a].similarity >= search_hits(records, limit, facet)[b].similarity by {
        if a < b {
            assert(beats(sims, order[a], order[b]));
        }
    }
}

/// Searches one facet: ranks `records` by falling similarity, those of one similarity in the
/// order in which they are stored, and gives the first `limit` of them as hits of `facet`.
pub fn search_table(records: &Vec<ScoredRecord>, limit: usize, facet: Facet) -> (hits: Vec<
    SearchResult,
>)
    ensures
        hits.deep_view() == search_hits(records.deep_view(), limit as nat, facet),
        forall|a: int, b: int|
            0 <= a <= b < hits.len() ==> #[trigger] hits[a].similarity >= #[trigger] hits[b].similarity,
{
    let mut keys: Vec<i64> = Vec::new();
    let mut i: usize = 0;
    while i < records.len()
        invariant
            i <= records.len(),
            keys.len() == i,
            forall|j: int| 0 <= j < i ==> #[trigger] keys@[j] == records@[j].similarity,
        decreases records.len() - i,
    {
        keys.push(records[i].similarity as i64);
        i += 1;
    }
    let order = rank_order(&keys);
    let ghost sims = similarities(records.deep_view());
    let ghost ord = index_values(order@);
    assert(key_values(keys@) =~= sims);
    let count: usize = if limit <= records.len() { limit } else { records.len() };
    let mut hits: Vec<SearchResult> = Vec::new();
    let mut p: usize = 0;
    while p < count
        invariant
            p <= count <= records.len(),
            hits.len() == p,
            order.len() == records.len(),
            ord == index_values(order@),
            sims == similarities(records.deep_view()),
            is_ranking(sims, ord),
            forall|q: int|
                0 <= q < p ==> (#[trigger] hits@[q])@ == hit_of(records@[ord[q]]@, facet),
        decreases count - p,
    {
        assert(0 <= ord[p as int] < records.len());
        let record = &records[order[p]];
        hits.push(
            SearchResult {
                condition_name: record.condition_name.clone(),
                text: record.text.clone(),
                embedding_type: String::from_str(facet.label()),
                similarity: record.similarity,
            },
        );
        p += 1;
    }
    proof {
        assert(hits.deep_view() =~= search_hits(records.deep_view(), limit as nat, facet)) by {
            assert forall|q: int| 0 <= q < hits.len() implies hits.deep_view()[q] == search_hits(
                records.deep_view(),
                limit as nat,
                facet,
            )[q] by {
                assert(hits.deep_view()[q] == hits@[q]@);
                assert(records.deep_view()[ord[q]] == records@[ord[q]]@);
            }
        }
        lemma_search_hits_fall(records.deep_view(), limit as nat, facet);
        assert forall|a: int| 0 <= a < hits.len() implies (#[trigger] hits[a])@ == search_hits(
            records.deep_view(),
            limit as nat,
            facet,
        )[a] by {
            assert(hits.deep_view()[a] == hits@[a]@);
        }
    }
    hits
}

/// Why a search gave no hits at all.
#[derive(Debug, Clone, Copy, PartialEq, Eq, Structural)]
pub enum SearchError {
    /// The store could not be reached.
    StoreUnavailable,
    /// The facet's table was never made.
    CollectionNotFound,
}

/// What the store gave for one facet, with the records scored against the query.
#[derive(Debug, Clone)]
pub enum FacetTable {
    /// The store could not be reached.
    Unreachable,
    /// The store has no table for the facet.
    Missing,
    /// The table is there, with these records, perhaps none.
    Present(Vec<ScoredRecord>),
}

/// What a `FacetTable` says.
pub enum FacetTableView {
    Unreachable,
    Missing,
    Present(Seq<ScoredRecordView>),
}

impl View for FacetTable {
    type V = FacetTableView;

    open spec fn view(&self) -> FacetTableView {
        match self {
            FacetTable::Unreachable => FacetTableView::Unreachable,
            FacetTable::Missing => FacetTableView::Missing,
            FacetTable::Present(records) => FacetTableView::Present(records.deep_view()),
        }
    }
}

/// What a search in `table` gives: the hits among its records where it is there, also where
/// it is empty, and else the reason why there are none.
pub open spec fn search_outcome(table: FacetTableView, limit: nat, facet: Facet) -> Result<
    Seq<SearchResultView>,
    SearchError,
> {
    match table {
        FacetTableView::Unreachable => Err(SearchError::StoreUnavailable),
        FacetTableView::Missing => Err(SearchError::CollectionNotFound),
        FacetTableView::Present(records) => Ok(search_hits(records, limit, facet)),
    }
}

/// Whether the facet's table was made.
pub open spec fn table_exists(table: FacetTableView) -> bool {
    table is Present
}

/// What a result of hits says.
pub open spec fn hits_view(r: Result<Vec<SearchResult>, SearchError>) -> Result<
    Seq<SearchResultView>,
    SearchError,
> {
    match r {
        Ok(hits) => Ok(hits.deep_view()),
        Err(e) => Err(e),
    }
}

/// Searches one facet by what the store gave for it: the hits among the records of a table
/// that is there, and the reason why there are none where it is not.
pub fn search(table: &FacetTable, limit: usize, facet: Facet) -> (r: Result<
    Vec<SearchResult>,
    SearchError,
>)
    ensures
        hits_view(r) == search_outcome(table@, limit as nat, facet),
{
    match table {
        FacetTable::Unreachable => Err(SearchError::StoreUnavailable),
        FacetTable::Missing => Err(SearchError::CollectionNotFound),
        FacetTable::Present(records) => Ok(search_table(records, limit, facet)),
    }
}

/// Tells whether embeddings were stored, by what the store gave for the description facet:
/// whether its table was made.
pub fn has_embeddings(table: &FacetTable) -> (b: bool)
    ensures
        b == table_exists(table@),
{
    match table {
        FacetTable::Present(_) => true,
        _ => false,
    }
}

/// A text that is to be embedded and stored under one facet of a condition.
#[derive(Debug, Clone)]
pub struct EmbeddingJob {
    pub facet: Facet,
    pub condition_name: String,
    pub text: String,
}

/// What an `EmbeddingJob` says.
pub struct EmbeddingJobView {
    pub facet: Facet,
    pub condition_name: Seq<char>,
    pub text: Seq<char>,
}

impl View for EmbeddingJob {
    type V = EmbeddingJobView;

    open spec fn view(&self) -> EmbeddingJobView {
        EmbeddingJobView { facet: self.facet, condition_name: self.condition_name@, text: self.text@ }
    }
}

impl DeepView for EmbeddingJob {
    type V = EmbeddingJobView;

    open spec fn deep_view(&self) -> EmbeddingJobView {
        self@
    }
}

/// The text that stands for `facet` where a condition had no summary.
pub open spec fn missing_text(facet: Facet) -> Seq<char> {
    match facet {
        Facet::Description => NO_SUMMARY@,
        Facet::Etiology => NOT_AVAILABLE@,
        Facet::Manifestation => NOT_AVAILABLE@,
    }
}

/// Whether `text` is embedded under `facet`: it is neither empty nor the text that stands
/// for a missing summary.
pub open spec fn is_embedded(facet: Facet, text: Seq<char>) -> bool {
    text.len() > 0 && text != missing_text(facet)
}

/// The text of `condition` under `facet`.
pub open spec fn facet_text(condition: ConditionDataView, facet: Facet) -> Seq<char> {
    match facet {
        Facet::Description => condition.description,
        Facet::Etiology => condition.etiology,
        Facet::Manifestation => condition.manifestations,
    }
}

/// The job for `facet` of `condition`, if its text is embedded.
pub open spec fn facet_jobs(condition: ConditionDataView, facet: Facet) -> Seq<EmbeddingJobView> {
    if is_embedded(facet, facet_text(condition, facet)) {
        seq![
            EmbeddingJobView {
                facet: facet,
                condition_name: condition.name,
                text: facet_text(condition, facet),
            },
        ]
    } else {
        Seq::empty()
    }
}

/// The jobs for `condition`: its description, its etiology, its manifestations, each where
/// its text is embedded.
pub open spec fn condition_jobs(condition: ConditionDataView) -> Seq<EmbeddingJobView> {
    facet_jobs(condition, Facet::Description) + facet_jobs(condition, Facet::Etiology) + facet_jobs(
        condition,
        Facet::Manifestation,
    )
}

/// The jobs for `conditions`, condition by condition.
pub open spec fn jobs_for(conditions: Seq<ConditionDataView>) -> Seq<EmbeddingJobView>
    decreases conditions.len(),
{
    if conditions.len() == 0 {
        Seq::empty()
    } else {
        jobs_for(conditions.drop_last()) + condition_jobs(conditions.last())
    }
}

/// Tells whether `text` is embedded under `facet`.
pub fn should_embed(facet: Facet, text: &str) -> (b: bool)
    ensures
        b == is_embedded(facet, text@),
{
    if text.unicode_len() == 0 {
        return false;
    }
    let missing: &str = match facet {
        Facet::Description => NO_SUMMARY,
        Facet::Etiology => NOT_AVAILABLE,
        Facet::Manifestation => NOT_AVAILABLE,
    };
    !same_text(text, missing)
}

/// Adds to `jobs` the job for `facet` of a condition, if `text` is embedded.
fn push_job(jobs: &mut Vec<EmbeddingJob>, facet: Facet, condition: &ConditionData, text: &String)
    requires
        text@ == facet_text(condition@, facet),
    ensures
        final(jobs).deep_view() == old(jobs).deep_view() + facet_jobs(condition@, facet),
{
    let ghost before = jobs.deep_view();
    if should_embed(facet, text.as_str()) {
        jobs.push(
            EmbeddingJob { facet, condition_name: condition.name.clone(), text: text.clone() },
        );
        assert(jobs.deep_view() =~= before + facet_jobs(condition@, facet));
    } else {
        assert(jobs.deep_view() =~= before + facet_jobs(condition@, facet));
    }
}

/// Lists the texts to embed for `conditions`: for each condition its description, its
/// etiology and its manifestations, but for those that are empty or stand for a missing
/// summary.
pub fn embedding_jobs(conditions: &Vec<ConditionData>) -> (jobs: Vec<EmbeddingJob>)
    ensures
        jobs.deep_view() == jobs_for(conditions.deep_view()),
{
    let ghost all = conditions.deep_view();
    let mut jobs: Vec<EmbeddingJob> = Vec::new();
    let mut i: usize = 0;
    proof {
        assert(jobs.deep_view() =~= jobs_for(all.take(0)));
    }
    while i < conditions.len()
        invariant
            i <= conditions.len(),
            all == conditions.deep_view(),
            jobs.deep_view() == jobs_for(all.take(i as int)),
        decreases conditions.len() - i,
    {
        let condition = &conditions[i];
        let ghost before = jobs.deep_view();
        proof {
            assert(all.take(i + 1).drop_last() =~= all.take(i as int));
            assert(all.take(i + 1).last() == condition@);
        }
        push_job(&mut jobs, Facet::Description, condition, &condition.description);
        push_job(&mut jobs, Facet::Etiology, condition, &condition.etiology);
        push_job(&mut jobs, Facet::Manifestation, condition, &condition.manifestations);
        assert(jobs.deep_view() =~= before + condition_jobs(condition@));
        i += 1;
    }
    proof {
        assert(all.take(conditions.len() as int) =~= all);
    }
    jobs
}

} // verus!
