//! Fuzzy-search annotation engine. A query never filters the listing:
//! every entry is scored against the query, matching entries become the
//! ordered highlight set, and the cursor jumps to the best match. Keeping
//! the listing intact keeps cursor and mark indices stable across search
//! toggles.

use vstd::prelude::*;
use fuzzy_matcher::FuzzyMatcher;
use crate::app::App;
use crate::entry::{EntryV, FileEntry, views};

verus! {

/// What SkimMatcherV2's default configuration returns for a name and a
/// query: a relevance score and the matched character offsets, or nothing
/// when the query is no fuzzy match for the name. The scoring algorithm
/// is far too large to state here, but it is a pure function of the two
/// strings.
pub uninterp spec fn fuzzy_of(name: Seq<char>, query: Seq<char>) -> Option<(i64, Seq<usize>)>;

/// Relies on fuzzy_matcher's `SkimMatcherV2::fuzzy_indices` under the
/// default configuration: deterministic in the two strings.
#[verifier::external_body]
fn fuzzy_indices(name: &str, query: &str) -> (r: Option<(i64, Vec<usize>)>)
    ensures
        r is Some <==> fuzzy_of(name@, query@) is Some,
        r matches Some(sp) ==> fuzzy_of(name@, query@) == Option::Some((sp.0, sp.1@)),
{
    fuzzy_matcher::skim::SkimMatcherV2::default().fuzzy_indices(name, query)
}

/// One matching entry: its index in the full listing, its relevance
/// score, and the character offsets that matched, for highlighting.
#[derive(Debug, Clone)]
pub struct SearchMatch {
    pub index: usize,
    pub score: i64,
    pub positions: Vec<usize>,
}

/// The mathematical value of a `SearchMatch`.
#[verifier::ext_equal]
pub ghost struct SearchMatchV {
    pub index: int,
    pub score: i64,
    pub positions: Seq<usize>,
}

impl View for SearchMatch {
    type V = SearchMatchV;

    open spec fn view(&self) -> SearchMatchV {
        SearchMatchV { index: self.index as int, score: self.score, positions: self.positions@ }
    }
}

/// The views of a sequence of matches.
pub open spec fn match_views(s: Seq<SearchMatch>) -> Seq<SearchMatchV> {
    s.map_values(|m: SearchMatch| m@)
}

/// The matches of a query against a listing, in listing order.
pub open spec fn match_list(listing: Seq<EntryV>, q: Seq<char>) -> Seq<SearchMatchV>
    decreases listing.len(),
{
    if listing.len() == 0 {
        Seq::empty()
    } else {
        let rest = match_list(listing.drop_last(), q);
        match fuzzy_of(listing.last().name, q) {
            Option::None => rest,
            Option::Some(sp) => rest.push(
                SearchMatchV {
                    index: listing.len() - 1,
                    score: sp.0,
                    positions: sp.1,
                },
            ),
        }
    }
}

/// Every index in a match list lies below the listing length, and the
/// indices are strictly increasing.
pub proof fn lemma_match_list_indices(listing: Seq<EntryV>, q: Seq<char>)
    ensures
        forall|j: int|
            0 <= j < match_list(listing, q).len() ==> 0 <= #[trigger] match_list(listing, q)[j].index
                < listing.len(),
        forall|j: int, k: int|
            0 <= j < k < match_list(listing, q).len() ==> #[trigger] match_list(
                listing,
                q,
            )[j].index < #[trigger] match_list(listing, q)[k].index,
    decreases listing.len(),
{
    if listing.len() > 0 {
        let d = listing.drop_last();
        lemma_match_list_indices(d, q);
        let rest = match_list(d, q);
        let full = match_list(listing, q);
        match fuzzy_of(listing.last().name, q) {
            Option::None => {
                assert(full == rest);
            },
            Option::Some(sp) => {
                assert(full == rest.push(
                    SearchMatchV { index: listing.len() - 1, score: sp.0, positions: sp.1 },
                ));
                assert(forall|j: int| 0 <= j < rest.len() ==> full[j] == #[trigger] rest[j]);
            },
        }
    }
}

/// The position, within a non-empty match list, of the highest-scoring
/// match; among equal scores, the earliest in listing order.
pub open spec fn best_pos(ms: Seq<SearchMatchV>) -> int
    decreases ms.len(),
{
    if ms.len() <= 1 {
        0
    } else {
        let b = best_pos(ms.drop_last());
        if ms.last().score > ms[b].score {
            ms.len() - 1
        } else {
            b
        }
    }
}

/// `best_pos` names a position whose score no other match beats, and no
/// earlier match reaches.
pub proof fn lemma_best_pos(ms: Seq<SearchMatchV>)
    requires
        ms.len() > 0,
    ensures
        0 <= best_pos(ms) < ms.len(),
        forall|j: int| 0 <= j < ms.len() ==> #[trigger] ms[j].score <= ms[best_pos(ms)].score,
        forall|j: int| 0 <= j < best_pos(ms) ==> #[trigger] ms[j].score < ms[best_pos(ms)].score,
    decreases ms.len(),
{
    if ms.len() > 1 {
        lemma_best_pos(ms.drop_last());
        assert(forall|j: int| 0 <= j < ms.len() - 1 ==> ms.drop_last()[j] == #[trigger] ms[j]);
    }
}

/// Computes the matches of `query` over `files`, in listing order.
fn compute_matches(files: &Vec<FileEntry>, query: &str) -> (r: Vec<SearchMatch>)
    ensures
        match_views(r@) == match_list(views(files@), query@),
{
    let ghost listing = views(files@);
    let mut r: Vec<SearchMatch> = Vec::new();
    let mut i: usize = 0;
    assert(match_list(listing.take(0), query@) =~= Seq::<SearchMatchV>::empty());
    assert(match_views(r@) =~= Seq::<SearchMatchV>::empty());
    while i < files.len()
        invariant
            i <= files@.len(),
            listing == views(files@),
            listing.len() == files@.len(),
            match_views(r@) == match_list(listing.take(i as int), query@),
        decreases files@.len() - i,
    {
        proof {
            assert(listing.take(i + 1).drop_last() =~= listing.take(i as int));
            assert(listing.take(i + 1).last() == listing[i as int]);
            assert(listing[i as int] == files@[i as int]@);
        }
        let ghost r0 = r@;
        match fuzzy_indices(files[i].name.as_str(), query) {
            Some(sp) => {
                r.push(SearchMatch { index: i, score: sp.0, positions: sp.1 });
                assert(match_views(r@) =~= match_views(r0).push(r@.last()@)) by {
                    assert(forall|j: int|
                        0 <= j < r@.len() ==> match_views(r@)[j] == #[trigger] r@[j]@);
                }
            },
            None => {},
        }
        i = i + 1;
    }
    proof {
        assert(listing.take(files@.len() as int) =~= listing);
    }
    r
}

/// The highlight indices of a match list.
pub open spec fn highlights_ok(highlights: Seq<usize>, ms: Seq<SearchMatchV>) -> bool {
    &&& highlights.len() == ms.len()
    &&& forall|j: int| 0 <= j < ms.len() ==> (#[trigger] highlights[j]) as int == ms[j].index
}

/// Recomputes the search annotations of `app` for its current query and
/// listing, without moving the cursor. An empty query leaves no
/// annotations.
pub fn recompute_matches(app: &mut App)
    ensures
        *final(app) == (App {
            search_highlights: final(app).search_highlights,
            search_match_positions: final(app).search_match_positions,
            ..*old(app)
        }),
        final(app).search_query@.len() == 0 ==> final(app).search_highlights@.len() == 0
            && final(app).search_match_positions@.len() == 0,
        final(app).search_query@.len() > 0 ==> match_views(final(app).search_match_positions@)
            == match_list(views(final(app).files@), final(app).search_query@) && highlights_ok(
            final(app).search_highlights@,
            match_views(final(app).search_match_positions@),
        ),
{
    if app.search_query.as_str().is_empty() {
        app.search_highlights = Vec::new();
        app.search_match_positions = Vec::new();
        return ;
    }
    let query = app.search_query.clone();
    let ms = compute_matches(&app.files, query.as_str());
    let mut hl: Vec<usize> = Vec::new();
    let mut i: usize = 0;
    while i < ms.len()
        invariant
            i <= ms@.len(),
            hl@.len() == i,
            forall|j: int| 0 <= j < i ==> (#[trigger] hl@[j]) as int == ms@[j]@.index,
        decreases ms@.len() - i,
    {
        hl.push(ms[i].index);
        i = i + 1;
    }
    proof {
        assert(forall|j: int|
            0 <= j < ms@.len() ==> match_views(ms@)[j] == #[trigger] ms@[j]@);
    }
    app.search_highlights = hl;
    app.search_match_positions = ms;
}

/// The position of the best match in a non-empty match vector.
fn best_of(ms: &Vec<SearchMatch>) -> (b: usize)
    requires
        ms@.len() > 0,
    ensures
        b as int == best_pos(match_views(ms@)),
        b < ms@.len(),
{
    let ghost msv = match_views(ms@);
    proof {
        assert(forall|t: int| 0 <= t < ms@.len() ==> msv[t] == #[trigger] ms@[t]@);
        assert(best_pos(msv.take(1)) == 0);
    }
    let mut best: usize = 0;
    let mut j: usize = 1;
    while j < ms.len()
        invariant
            1 <= j <= ms@.len(),
            best < j,
            msv == match_views(ms@),
            msv.len() == ms@.len(),
            forall|t: int| 0 <= t < ms@.len() ==> msv[t] == #[trigger] ms@[t]@,
            best as int == best_pos(msv.take(j as int)),
        decreases ms@.len() - j,
    {
        proof {
            assert(msv.take(j + 1).drop_last() =~= msv.take(j as int));
            assert(msv.take(j + 1).last() == msv[j as int]);
            assert(forall|t: int| 0 <= t < j ==> msv.take(j as int)[t] == #[trigger] msv[t]);
        }
        if ms[j].score > ms[best].score {
            best = j;
        }
        j = j + 1;
    }
    proof {
        assert(msv.take(ms@.len() as int) =~= msv);
    }
    best
}

/// Re-runs the fuzzy search after a query mutation: recomputes the
/// annotations over the full listing and jumps the cursor to the best
/// match. An empty query clears all annotations and leaves the cursor
/// untouched; a query matching nothing leaves the cursor unmoved.
pub fn update_search(app: &mut App)
    ensures
        *final(app) == (App {
            search_highlights: final(app).search_highlights,
            search_match_positions: final(app).search_match_positions,
            cursor: final(app).cursor,
            ..*old(app)
        }),
        final(app).search_query@.len() == 0 ==> final(app).search_highlights@.len() == 0
            && final(app).search_match_positions@.len() == 0 && final(app).cursor == old(
            app,
        ).cursor,
        final(app).search_query@.len() > 0 ==> {
            let ms = match_list(views(final(app).files@), final(app).search_query@);
            &&& match_views(final(app).search_match_positions@) == ms
            &&& highlights_ok(final(app).search_highlights@, ms)
            &&& (ms.len() == 0 ==> final(app).cursor == old(app).cursor)
            &&& (ms.len() > 0 ==> final(app).cursor == Option::Some(
                ms[best_pos(ms)].index as usize,
            ))
        },
{
    recompute_matches(app);
    if app.search_query.as_str().is_empty() {
        return ;
    }
    if app.search_match_positions.len() == 0 {
        return ;
    }
    let b = best_of(&app.search_match_positions);
    let target = app.search_match_positions[b].index;
    proof {
        lemma_match_list_indices(views(app.files@), app.search_query@);
    }
    app.cursor = Some(target);
}

} // verus!
