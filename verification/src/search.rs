use crate::embedding::{
    hit_count, search, search_outcome, Facet, FacetTable, FacetTableView, SearchError,
    SearchResult, SearchResultView,
};
use crate::rank::{
    beats, index_values, is_ranking, key_values, lemma_ranking_exists, lemma_ranking_is,
    rank_order, ranking,
};
use vstd::prelude::*;
use vstd::string::StrSliceExecFns;

verus! {

/// What a match in the description facet adds to a score, in tenths.
pub const DESCRIPTION_WEIGHT: u32 = 10;

/// What a match in the etiology facet adds to a score, in tenths.
pub const ETIOLOGY_WEIGHT: u32 = 12;

/// What a match in the manifestation facet adds to a score, in tenths.
pub const MANIFESTATION_WEIGHT: u32 = 15;

/// How many conditions a cross-reference search gives at most.
pub const TOP_CONDITIONS: usize = 5;

/// A condition with its fused score and what matched of it in each facet. The score is
/// counted in tenths of a point.
#[derive(Debug, Clone)]
pub struct RankedCondition {
    pub name: String,
    pub score_tenths: u32,
    pub description_matches: usize,
    pub etiology_matches: usize,
    pub manifestation_matches: usize,
    pub description_text: Option<String>,
    pub etiology_text: Option<String>,
    pub manifestation_text: Option<String>,
}

/// What a `RankedCondition` says.
pub struct RankedConditionView {
    pub name: Seq<char>,
    pub score_tenths: int,
    pub description_matches: int,
    pub etiology_matches: int,
    pub manifestation_matches: int,
    pub description_text: Option<Seq<char>>,
    pub etiology_text: Option<Seq<char>>,
    pub manifestation_text: Option<Seq<char>>,
}

/// What an optional text says.
pub open spec fn text_view(text: Option<String>) -> Option<Seq<char>> {
    match text {
        Some(t) => Some(t@),
        None => None,
    }
}

impl View for RankedCondition {
    type V = RankedConditionView;

    open spec fn view(&self) -> RankedConditionView {
        RankedConditionView {
            name: self.name@,
            score_tenths: self.score_tenths as int,
            description_matches: self.description_matches as int,
            etiology_matches: self.etiology_matches as int,
            manifestation_matches: self.manifestation_matches as int,
            description_text: text_view(self.description_text),
            etiology_text: text_view(self.etiology_text),
            manifestation_text: text_view(self.manifestation_text),
        }
    }
}

impl DeepView for RankedCondition {
    type V = RankedConditionView;

    open spec fn deep_view(&self) -> RankedConditionView {
        self@
    }
}

/// The names of the conditions that `hits` name, one for each hit.
pub open spec fn names_of(hits: Seq<SearchResultView>) -> Seq<Seq<char>> {
    Seq::new(hits.len(), |i: int| hits[i].condition_name)
}

/// `names` without repetitions: each name where it first stands.
pub open spec fn distinct_names(names: Seq<Seq<char>>) -> Seq<Seq<char>>
    decreases names.len(),
{
    if names.len() == 0 {
        Seq::empty()
    } else {
        let before = distinct_names(names.drop_last());
        if before.contains(names.last()) {
            before
        } else {
            before.push(names.last())
        }
    }
}

/// The text of the first of `hits` that names `name`, if one does.
pub open spec fn first_text(hits: Seq<SearchResultView>, name: Seq<char>) -> Option<Seq<char>>
    decreases hits.len(),
{
    if hits.len() == 0 {
        None
    } else if hits.first().condition_name == name {
        Some(hits.first().text)
    } else {
        first_text(hits.drop_first(), name)
    }
}

/// The sum of the weights of the facets that matched.
pub open spec fn weighted_score(
    description_weight: int,
    etiology_weight: int,
    manifestation_weight: int,
    description: bool,
    etiology: bool,
    manifestation: bool,
) -> int {
    (if description {
        description_weight
    } else {
        0
    }) + (if etiology {
        etiology_weight
    } else {
        0
    }) + (if manifestation {
        manifestation_weight
    } else {
        0
    })
}

/// The fused score, in tenths, of a condition by the facets in which it matched.
pub open spec fn fused_score(description: bool, etiology: bool, manifestation: bool) -> int {
    weighted_score(
        DESCRIPTION_WEIGHT as int,
        ETIOLOGY_WEIGHT as int,
        MANIFESTATION_WEIGHT as int,
        description,
        etiology,
        manifestation,
    )
}

/// One for a match, zero for none.
pub open spec fn match_count(text: Option<Seq<char>>) -> int {
    if text is Some {
        1
    } else {
        0
    }
}

/// The condition `name` as the three hit lists show it.
pub open spec fn condition_of(
    name: Seq<char>,
    description: Seq<SearchResultView>,
    etiology: Seq<SearchResultView>,
    manifestation: Seq<SearchResultView>,
) -> RankedConditionView {
    let d = first_text(description, name);
    let e = first_text(etiology, name);
    let m = first_text(manifestation, name);
    RankedConditionView {
        name: name,
        score_tenths: fused_score(d is Some, e is Some, m is Some),
        description_matches: match_count(d),
        etiology_matches: match_count(e),
        manifestation_matches: match_count(m),
        description_text: d,
        etiology_text: e,
        manifestation_text: m,
    }
}

/// The conditions that the three hit lists name, each once, in the order in which they are
/// first named: through the description hits, then the etiology hits, then the
/// manifestation hits.
pub open spec fn candidates(
    description: Seq<SearchResultView>,
    etiology: Seq<SearchResultView>,
    manifestation: Seq<SearchResultView>,
) -> Seq<RankedConditionView> {
    let names = distinct_names(
        names_of(description) + names_of(etiology) + names_of(manifestation),
    );
    Seq::new(names.len(), |i: int| condition_of(names[i], description, etiology, manifestation))
}

/// The scores of `conditions`, one for each.
pub open spec fn scores(conditions: Seq<RankedConditionView>) -> Seq<int> {
    Seq::new(conditions.len(), |i: int| conditions[i].score_tenths)
}

/// The first `top_n` of `conditions` as `order` lists them.
pub open spec fn pick(conditions: Seq<RankedConditionView>, order: Seq<int>, top_n: nat) -> Seq<
    RankedConditionView,
> {
    Seq::new(hit_count(conditions.len(), top_n), |p: int| conditions[order[p]])
}

/// The fusion of three hit lists: the first `top_n` of their conditions by falling score,
/// conditions of one score in the order in which they are first named.
pub open spec fn fused(
    description: Seq<SearchResultView>,
    etiology: Seq<SearchResultView>,
    manifestation: Seq<SearchResultView>,
    top_n: nat,
) -> Seq<RankedConditionView> {
    let found = candidates(description, etiology, manifestation);
    pick(found, ranking(scores(found)), top_n)
}

/// Whether all three facets matched.
pub open spec fn full_match(condition: RankedConditionView) -> bool {
    condition.description_matches + condition.etiology_matches + condition.manifestation_matches
        == 3
}

/// With weights above zero, a condition that matched in all three facets has a greater
/// score than one that missed any of them.
pub proof fn lemma_full_match_outscores(
    description_weight: int,
    etiology_weight: int,
    manifestation_weight: int,
    description: bool,
    etiology: bool,
    manifestation: bool,
)
    requires
        description_weight > 0,
        etiology_weight > 0,
        manifestation_weight > 0,
        !(description && etiology && manifestation),
    ensures
        weighted_score(
            description_weight,
            etiology_weight,
            manifestation_weight,
            true,
            true,
            true,
        ) > weighted_score(
            description_weight,
            etiology_weight,
            manifestation_weight,
            description,
            etiology,
            manifestation,
        ),
{
}

/// With weights above zero, a match in one more facet raises the score.
pub proof fn lemma_score_grows_with_matches(
    description_weight: int,
    etiology_weight: int,
    manifestation_weight: int,
    d1: bool,
    e1: bool,
    m1: bool,
    d2: bool,
    e2: bool,
    m2: bool,
)
    requires
        description_weight > 0,
        etiology_weight > 0,
        manifestation_weight > 0,
        d1 ==> d2,
        e1 ==> e2,
        m1 ==> m2,
        (d1, e1, m1) != (d2, e2, m2),
    ensures
        weighted_score(description_weight, etiology_weight, manifestation_weight, d1, e1, m1)
            < weighted_score(description_weight, etiology_weight, manifestation_weight, d2, e2, m2),
{
}

/// The scores of conditions that matched in the facets that `matches` tells, one for each,
/// under the given weights.
pub open spec fn weighted_scores(
    description_weight: int,
    etiology_weight: int,
    manifestation_weight: int,
    matches: Seq<(bool, bool, bool)>,
) -> Seq<int> {
    Seq::new(
        matches.len(),
        |i: int|
            weighted_score(
                description_weight,
                etiology_weight,
                manifestation_weight,
                matches[i].0,
                matches[i].1,
                matches[i].2,
            ),
    )
}

/// With weights above zero, the ranking by score lists every condition that matched in all
/// three facets before every condition that missed one of them.
pub proof fn lemma_full_match_ranks_first(
    description_weight: int,
    etiology_weight: int,
    manifestation_weight: int,
    matches: Seq<(bool, bool, bool)>,
    order: Seq<int>,
    full: int,
    partial: int,
)
    requires
        description_weight > 0,
        etiology_weight > 0,
        manifestation_weight > 0,
        is_ranking(
            weighted_scores(description_weight, etiology_weight, manifestation_weight, matches),
            order,
        ),
        0 <= full < order.len(),
        0 <= partial < order.len(),
        matches[order[full]] == (true, true, true),
        matches[order[partial]] != (true, true, true),
    ensures
        full < partial,
{
    let keys = weighted_scores(description_weight, etiology_weight, manifestation_weight, matches);
    let f = order[full];
    let p = order[partial];
    assert(0 <= f < matches.len());
    assert(0 <= p < matches.len());
    lemma_full_match_outscores(
        description_weight,
        etiology_weight,
        manifestation_weight,
        matches[p].0,
        matches[p].1,
        matches[p].2,
    );
    assert(keys[f] > keys[p]);
    if partial < full {
        assert(beats(keys, order[partial], order[full]));
    }
}

/// Whatever order ranks the conditions by their scores, the fusion is the same.
pub proof fn lemma_fusion_is_determined(
    description: Seq<SearchResultView>,
    etiology: Seq<SearchResultView>,
    manifestation: Seq<SearchResultView>,
    top_n: nat,
    order: Seq<int>,
)
    requires
        is_ranking(scores(candidates(description, etiology, manifestation)), order),
    ensures
        pick(candidates(description, etiology, manifestation), order, top_n) == fused(
            description,
            etiology,
            manifestation,
            top_n,
        ),
{
    let found = candidates(description, etiology, manifestation);
    lemma_ranking_is(scores(found), order);
}

/// The fusion lists its conditions by falling score, and with that every condition that
/// matched in all three facets before every condition that missed one of them.
pub proof fn lemma_fusion_ranks_by_score(
    description: Seq<SearchResultView>,
    etiology: Seq<SearchResultView>,
    manifestation: Seq<SearchResultView>,
    top_n: nat,
)
    ensures
        forall|a: int, b: int|
            0 <= a <= b < fused(description, etiology, manifestation, top_n).len() ==> fused(
                description,
                etiology,
                manifestation,
                top_n,
            )[a].score_tenths >= fused(description, etiology, manifestation, top_n)[b].score_tenths,
        forall|a: int, b: int|
            0 <= a < fused(description, etiology, manifestation, top_n).len() && 0 <= b < fused(
                description,
                etiology,
                manifestation,
                top_n,
            ).len() && full_match(fused(description, etiology, manifestation, top_n)[b])
                && !full_match(fused(description, etiology, manifestation, top_n)[a]) ==> b < a,
{
    let found = candidates(description, etiology, manifestation);
    let points = scores(found);
    let order = ranking(points);
    let out = fused(description, etiology, manifestation, top_n);
    lemma_ranking_exists(points);
    assert forall|a: int, b: int| 0 <= a <= b < out.len() implies out[a].score_tenths
        >= out[b].score_tenths by {
        if a < b {
            assert(beats(points, order[a], order[b]));
        }
    }
    assert forall|a: int, b: int|
        0 <= a < out.len() && 0 <= b < out.len() && full_match(out[b]) && !full_match(
            out[a],
        ) implies b < a by {
        assert(0 <= order[a] < found.len());
        assert(0 <= order[b] < found.len());
        if a < b {
            assert(beats(points, order[a], order[b]));
        }
    }
}

/// Tells whether `name` is among `seen`.
fn has_name(seen: &Vec<String>, name: &String) -> (b: bool)
    ensures
        b == seen.deep_view().contains(name@),
{
    let mut i: usize = 0;
    while i < seen.len()
        invariant
            i <= seen.len(),
            forall|j: int| 0 <= j < i ==> #[trigger] seen.deep_view()[j] != name@,
        decreases seen.len() - i,
    {
        assert(seen.deep_view()[i as int] == seen@[i as int]@);
        if seen[i] == *name {
            return true;
        }
        i += 1;
    }
    false
}

/// Adds to `seen` the names of `hits` that are not yet among them, each where it first
/// stands.
fn absorb_names(seen: &mut Vec<String>, hits: &Vec<SearchResult>, Ghost(earlier): Ghost<Seq<Seq<char>>>)
    requires
        old(seen).deep_view() == distinct_names(earlier),
    ensures
        final(seen).deep_view() == distinct_names(earlier + names_of(hits.deep_view())),
{
    let ghost added = names_of(hits.deep_view());
    let mut i: usize = 0;
    proof {
        assert(earlier + added.take(0) =~= earlier);
    }
    while i < hits.len()
        invariant
            i <= hits.len(),
            added == names_of(hits.deep_view()),
            seen.deep_view() == distinct_names(earlier + added.take(i as int)),
        decreases hits.len() - i,
    {
        let ghost before = seen.deep_view();
        proof {
            let grown = earlier + added.take(i + 1);
            assert(grown.drop_last() =~= earlier + added.take(i as int));
            assert(grown.last() == hits@[i as int].condition_name@);
            assert(hits.deep_view()[i as int] == hits@[i as int]@);
        }
        if !has_name(seen, &hits[i].condition_name) {
            seen.push(hits[i].condition_name.clone());
            proof {
                assert(seen.deep_view() =~= before.push(hits@[i as int].condition_name@));
            }
        }
        i += 1;
    }
    proof {
        assert(added.take(hits.len() as int) =~= added);
    }
}

/// The text of the first of `hits` that names `name`, if one does.
fn lookup_text(hits: &Vec<SearchResult>, name: &String) -> (r: Option<String>)
    ensures
        text_view(r) == first_text(hits.deep_view(), name@),
{
    let ghost all = hits.deep_view();
    let mut i: usize = 0;
    proof {
        assert(all.skip(0) =~= all);
    }
    while i < hits.len()
        invariant
            i <= hits.len(),
            all == hits.deep_view(),
            first_text(all, name@) == first_text(all.skip(i as int), name@),
        decreases hits.len() - i,
    {
        proof {
            let rest = all.skip(i as int);
            assert(rest.first() == hits@[i as int]@);
            assert(rest.drop_first() =~= all.skip(i + 1));
        }
        if hits[i].condition_name == *name {
            return Some(hits[i].text.clone());
        }
        i += 1;
    }
    None
}

/// A copy of an optional text.
fn clone_text(text: &Option<String>) -> (r: Option<String>)
    ensures
        text_view(r) == text_view(*text),
{
    match text {
        Some(t) => Some(t.clone()),
        None => None,
    }
}

/// Fuses the hits of the three facets into one list of conditions. Each condition that a hit
/// names is scored by the facets in which it is named; for each facet it keeps the text of the
/// first hit that names it. The list holds the first `top_n` conditions by falling score;
/// conditions of one score stand in the order in which they are first named, through the
/// description hits, then the etiology hits, then the manifestation hits.
pub fn fuse(
    description_hits: &Vec<SearchResult>,
    etiology_hits: &Vec<SearchResult>,
    manifestation_hits: &Vec<SearchResult>,
    top_n: usize,
) -> (out: Vec<RankedCondition>)
    ensures
        out.deep_view() == fused(
            description_hits.deep_view(),
            etiology_hits.deep_view(),
            manifestation_hits.deep_view(),
            top_n as nat,
        ),
        forall|a: int, b: int|
            0 <= a <= b < out.len() ==> #[trigger] out[a].score_tenths >= #[trigger] out[b].score_tenths,
        forall|a: int, b: int|
            0 <= a < out.len() && 0 <= b < out.len() && full_match(#[trigger] out[b]@) && !full_match(
                #[trigger] out[a]@,
            ) ==> b < a,
{
    let ghost d = description_hits.deep_view();
    let ghost e = etiology_hits.deep_view();
    let ghost m = manifestation_hits.deep_view();
    let mut names: Vec<String> = Vec::new();
    proof {
        assert(names.deep_view() =~= distinct_names(Seq::empty()));
        assert(Seq::<Seq<char>>::empty() + names_of(d) =~= names_of(d));
    }
    absorb_names(&mut names, description_hits, Ghost(Seq::empty()));
    absorb_names(&mut names, etiology_hits, Ghost(names_of(d)));
    absorb_names(&mut names, manifestation_hits, Ghost(names_of(d) + names_of(e)));
    let ghost found_spec = candidates(d, e, m);
    let mut found: Vec<RankedCondition> = Vec::new();
    let mut keys: Vec<i64> = Vec::new();
    let mut i: usize = 0;
    while i < names.len()
        invariant
            i <= names.len(),
            found.len() == i,
            keys.len() == i,
            d == description_hits.deep_view(),
            e == etiology_hits.deep_view(),
            m == manifestation_hits.deep_view(),
            found_spec == candidates(d, e, m),
            names.deep_view() == distinct_names(names_of(d) + names_of(e) + names_of(m)),
            forall|j: int| 0 <= j < i ==> (#[trigger] found@[j])@ == found_spec[j],
            forall|j: int| 0 <= j < i ==> #[trigger] keys@[j] == found_spec[j].score_tenths,
        decreases names.len() - i,
    {
        let name = &names[i];
        assert(names.deep_view()[i as int] == name@);
        let description_text = lookup_text(description_hits, name);
        let etiology_text = lookup_text(etiology_hits, name);
        let manifestation_text = lookup_text(manifestation_hits, name);
        let description_matches: usize = if description_text.is_some() { 1 } else { 0 };
        let etiology_matches: usize = if etiology_text.is_some() { 1 } else { 0 };
        let manifestation_matches: usize = if manifestation_text.is_some() { 1 } else { 0 };
        let mut score: u32 = 0;
        if description_text.is_some() {
            score = score + DESCRIPTION_WEIGHT;
        }
        if etiology_text.is_some() {
            score = score + ETIOLOGY_WEIGHT;
        }
        if manifestation_text.is_some() {
            score = score + MANIFESTATION_WEIGHT;
        }
        found.push(
            RankedCondition {
                name: name.clone(),
                score_tenths: score,
                description_matches,
                etiology_matches,
                manifestation_matches,
                description_text,
                etiology_text,
                manifestation_text,
            },
        );
        keys.push(score as i64);
        i += 1;
    }
    let order = rank_order(&keys);
    let ghost ord = index_values(order@);
    let ghost points = scores(found_spec);
    assert(key_values(keys@) =~= points);
    let count: usize = if top_n <= found.len() { top_n } else { found.len() };
    let mut out: Vec<RankedCondition> = Vec::new();
    let mut p: usize = 0;
    while p < count
        invariant
            p <= count <= found.len(),
            out.len() == p,
            order.len() == found.len(),
            found.len() == found_spec.len(),
            ord == index_values(order@),
            points == scores(found_spec),
            is_ranking(points, ord),
            forall|j: int| 0 <= j < found.len() ==> (#[trigger] found@[j])@ == found_spec[j],
            forall|q: int| 0 <= q < p ==> (#[trigger] out@[q])@ == found_spec[ord[q]],
        decreases count - p,
    {
        assert(0 <= ord[p as int] < found.len());
        let condition = &found[order[p]];
        out.push(
            RankedCondition {
                name: condition.name.clone(),
                score_tenths: condition.score_tenths,
                description_matches: condition.description_matches,
                etiology_matches: condition.etiology_matches,
                manifestation_matches: condition.manifestation_matches,
                description_text: clone_text(&condition.description_text),
                etiology_text: clone_text(&condition.etiology_text),
                manifestation_text: clone_text(&condition.manifestation_text),
            },
        );
        p += 1;
    }
    proof {
        assert(out.deep_view() =~= pick(found_spec, ord, top_n as nat)) by {
            assert forall|q: int| 0 <= q < out.len() implies out.deep_view()[q] == pick(
                found_spec,
                ord,
                top_n as nat,
            )[q] by {
                assert(out.deep_view()[q] == out@[q]@);
            }
        }
        lemma_fusion_is_determined(d, e, m, top_n as nat, ord);
        lemma_fusion_ranks_by_score(d, e, m, top_n as nat);
        assert forall|a: int| 0 <= a < out.len() implies (#[trigger] out[a])@ == fused(
            d,
            e,
            m,
            top_n as nat,
        )[a] by {
            assert(out.deep_view()[a] == out@[a]@);
        }
    }
    out
}

/// What a cross-reference search gives: the fusion of the hits of the three facets, or the
/// reason why the first facet without hits, in the order description, etiology,
/// manifestation, has none.
pub open spec fn cross_reference(
    description: FacetTableView,
    etiology: FacetTableView,
    manifestation: FacetTableView,
    top_k_per_table: nat,
) -> Result<Seq<RankedConditionView>, SearchError> {
    match search_outcome(description, top_k_per_table, Facet::Description) {
        Err(e) => Err(e),
        Ok(d) => match search_outcome(etiology, top_k_per_table, Facet::Etiology) {
            Err(e) => Err(e),
            Ok(e) => match search_outcome(manifestation, top_k_per_table, Facet::Manifestation) {
                Err(e) => Err(e),
                Ok(m) => Ok(fused(d, e, m, TOP_CONDITIONS as nat)),
            },
        },
    }
}

/// What a result of conditions says.
pub open spec fn conditions_view(r: Result<Vec<RankedCondition>, SearchError>) -> Result<
    Seq<RankedConditionView>,
    SearchError,
> {
    match r {
        Ok(conditions) => Ok(conditions.deep_view()),
        Err(e) => Err(e),
    }
}

/// Searches the three facets by what the store gave for them, keeping `top_k_per_table` hits
/// of each, and fuses the hits into the `TOP_CONDITIONS` best conditions. Fails where a
/// facet has no table or the store was not reached.
pub fn cross_reference_search(
    description: &FacetTable,
    etiology: &FacetTable,
    manifestation: &FacetTable,
    top_k_per_table: usize,
) -> (r: Result<Vec<RankedCondition>, SearchError>)
    ensures
        conditions_view(r) == cross_reference(
            description@,
            etiology@,
            manifestation@,
            top_k_per_table as nat,
        ),
{
    let description_results = match search(description, top_k_per_table, Facet::Description) {
        Ok(hits) => hits,
        Err(e) => {
            return Err(e);
        },
    };
    let etiology_results = match search(etiology, top_k_per_table, Facet::Etiology) {
        Ok(hits) => hits,
        Err(e) => {
            return Err(e);
        },
    };
    let manifestation_results = match search(manifestation, top_k_per_table, Facet::Manifestation) {
        Ok(hits) => hits,
        Err(e) => {
            return Err(e);
        },
    };
    Ok(fuse(&description_results, &etiology_results, &manifestation_results, TOP_CONDITIONS))
}

/// How many characters of a text are shown with a result.
pub const EXCERPT_CHARS: usize = 100;

/// The start of `text` that is shown with a result: its first `EXCERPT_CHARS` characters, or
/// all of it where it has fewer.
pub open spec fn excerpt_of(text: Seq<char>) -> Seq<char> {
    if text.len() <= EXCERPT_CHARS {
        text
    } else {
        text.take(EXCERPT_CHARS as int)
    }
}

/// The start of `text` that is shown with a result.
pub fn excerpt(text: &str) -> (r: &str)
    ensures
        r@ == excerpt_of(text@),
{
    let len = text.unicode_len();
    let end: usize = if len <= EXCERPT_CHARS { len } else { EXCERPT_CHARS };
    assert(text@.subrange(0, len as int) =~= text@);
    text.substring_char(0, end)
}

} // verus!
