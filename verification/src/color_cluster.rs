//! Dominant colours of an image: the search for the number of clusters, and
//! the cells that the clusters found fill.
//!
//! The clustering itself is the caller's. What is decided here is which
//! numbers of clusters to try and with which seeds, which of several runs to
//! keep, at which number of clusters to stop, and which clusters to report.

use crate::features::{cells_of, CsvRecordProvider};
use crate::text::{decimal, to_decimal};
use vstd::prelude::*;
use vstd::string::*;

verus! {

/// The most rounds a clustering run may take.
pub const KMEANS_MAX_ITERATIONS: usize = 50;

/// A clustering run has converged once its centroids move by no more than
/// [`KMEANS_TOLERANCE_PARTS`] parts in [`KMEANS_TOLERANCE_WHOLE`].
pub const KMEANS_TOLERANCE_PARTS: u32 = 5;

pub const KMEANS_TOLERANCE_WHOLE: u32 = 10_000;

/// One more cluster brings too little once it leaves more than
/// [`ELBOW_RATIO_PARTS`] parts in [`ELBOW_RATIO_WHOLE`] of the spread.
pub const ELBOW_RATIO_PARTS: u32 = 7;

pub const ELBOW_RATIO_WHOLE: u32 = 10;

/// A colour by lightness and two colour axes, each as the text of its value.
#[derive(Debug)]
pub struct LabColor {
    pub l: String,
    pub a: String,
    pub b: String,
}

/// What a colour reads.
pub struct LabCells {
    pub l: Seq<char>,
    pub a: Seq<char>,
    pub b: Seq<char>,
}

impl View for LabColor {
    type V = LabCells;

    open spec fn view(&self) -> LabCells {
        LabCells { l: self.l@, a: self.a@, b: self.b@ }
    }
}

impl LabColor {
    /// A second copy of this colour.
    pub fn duplicate(&self) -> (copy: LabColor)
        ensures
            copy@ == self@,
    {
        LabColor { l: self.l.clone(), a: self.a.clone(), b: self.b.clone() }
    }
}

/// The dominant colours of an image: how many clusters its colours were
/// split into, and the heaviest of them, heaviest first.
///
/// The feature names `n_clusters_out` colours in its header, whether or not
/// that many clusters were found.
#[derive(Debug)]
pub struct ColorClusterFeature {
    pub cluster: Vec<LabColor>,
    pub k: usize,
    pub n_clusters_out: usize,
}

/// The name of component `component` of a colour.
pub open spec fn component_name(component: int) -> Seq<char> {
    if component == 0 {
        "l"@
    } else if component == 1 {
        "a"@
    } else {
        "b"@
    }
}

/// Component `component` of a colour.
pub open spec fn component_cell(color: LabCells, component: int) -> Seq<char> {
    if component == 0 {
        color.l
    } else if component == 1 {
        color.a
    } else {
        color.b
    }
}

/// The name of column `column` of the feature: first the number of
/// clusters, then the three components of each colour in turn.
pub open spec fn cluster_column(column: int) -> Seq<char> {
    if column == 0 {
        "color_cluster_k"@
    } else {
        "color_cluster_"@ + decimal(((column - 1) / 3) as nat) + "_"@ + component_name(
            (column - 1) % 3,
        )
    }
}

impl CsvRecordProvider for ColorClusterFeature {
    open spec fn header_cells(&self) -> Seq<Seq<char>> {
        Seq::new((1 + 3 * self.n_clusters_out) as nat, |column: int| cluster_column(column))
    }

    open spec fn value_cells(&self) -> Seq<Seq<char>> {
        Seq::new(
            (1 + 3 * self.cluster@.len()) as nat,
            |column: int|
                if column == 0 {
                    decimal(self.k as nat)
                } else {
                    component_cell(self.cluster@[(column - 1) / 3]@, (column - 1) % 3)
                },
        )
    }

    fn headers(&self) -> (names: Vec<String>) {
        let mut names: Vec<String> = Vec::new();
        names.push(String::from_str("color_cluster_k"));
        let mut i: usize = 0;
        while i < self.n_clusters_out
            invariant
                i <= self.n_clusters_out,
                names@.len() == 1 + 3 * i,
                forall|column: int|
                    0 <= column < names@.len() ==> (#[trigger] names@[column])@ == cluster_column(
                        column,
                    ),
            decreases self.n_clusters_out - i,
        {
            let stem = String::from_str("color_cluster_").concat(
                to_decimal(i as u128).as_str(),
            ).concat("_");
            names.push(stem.clone().concat("l"));
            names.push(stem.clone().concat("a"));
            names.push(stem.concat("b"));
            i += 1;
        }
        assert(cells_of(names@) =~= self.header_cells());
        names
    }

    fn values(&self) -> (texts: Vec<String>) {
        let mut texts: Vec<String> = Vec::new();
        texts.push(to_decimal(self.k as u128));
        let mut i: usize = 0;
        while i < self.cluster.len()
            invariant
                i <= self.cluster@.len(),
                texts@.len() == 1 + 3 * i,
                texts@[0]@ == decimal(self.k as nat),
                forall|column: int|
                    1 <= column < texts@.len() ==> (#[trigger] texts@[column])@ == component_cell(
                        self.cluster@[(column - 1) / 3]@,
                        (column - 1) % 3,
                    ),
            decreases self.cluster@.len() - i,
        {
            texts.push(self.cluster[i].l.clone());
            texts.push(self.cluster[i].a.clone());
            texts.push(self.cluster[i].b.clone());
            i += 1;
        }
        assert(cells_of(texts@) =~= self.value_cells());
        texts
    }
}

/// What a search learnt of one candidate number of clusters.
#[derive(Debug, Clone, Copy)]
pub struct CandidateFit {
    /// The candidate: how many clusters were asked for.
    pub k: usize,
    /// Whether the spread within clusters that the next candidate leaves,
    /// over the spread that this one leaves, is above the elbow ratio.
    pub diminishing: bool,
}

/// A cluster of the run that was selected, with what it weighs.
#[derive(Debug)]
pub struct WeightedColor {
    /// A number that grows with the share of the pixels that the cluster
    /// holds.
    pub weight: u32,
    pub color: LabColor,
}

/// The weights of a palette.
pub open spec fn weights_of(palette: Seq<WeightedColor>) -> Seq<u32> {
    Seq::new(palette.len(), |i: int| palette[i].weight)
}

/// Whether cluster `i` comes before cluster `j`: the heavier first, and of
/// two of one weight the one that stood first.
pub open spec fn beats(weights: Seq<u32>, i: int, j: int) -> bool {
    weights[i] > weights[j] || (weights[i] == weights[j] && i < j)
}

/// Whether cluster `j` is among those ranked.
pub open spec fn ranked(ranking: Seq<usize>, j: int) -> bool {
    exists|t: int| 0 <= t < ranking.len() && #[trigger] ranking[t] == j
}

/// Whether `ranking` lists the `limit` clusters that come first, or all of
/// them where there are fewer, each before those it comes before.
pub open spec fn is_ranking(weights: Seq<u32>, limit: nat, ranking: Seq<usize>) -> bool {
    &&& ranking.len() == if limit < weights.len() {
        limit
    } else {
        weights.len()
    }
    &&& forall|t: int| 0 <= t < ranking.len() ==> (#[trigger] ranking[t]) < weights.len()
    &&& forall|s: int, t: int|
        0 <= s < t < ranking.len() ==> beats(
            weights,
            (#[trigger] ranking[s]) as int,
            (#[trigger] ranking[t]) as int,
        )
    &&& forall|j: int|
        0 <= j < weights.len() ==> #[trigger] ranked(ranking, j) || forall|t: int|
            0 <= t < ranking.len() ==> beats(weights, (#[trigger] ranking[t]) as int, j)
}

/// Whether run `best` has the lowest of `scores`, and is the first to have
/// it.
pub open spec fn is_best_run(scores: Seq<u32>, best: int) -> bool {
    &&& 0 <= best < scores.len()
    &&& forall|i: int| 0 <= i < scores.len() ==> scores[best] <= #[trigger] scores[i]
    &&& forall|i: int| 0 <= i < best ==> scores[best] < #[trigger] scores[i]
}

/// Finds the dominant colours of an image by clustering its colours, with
/// as many clusters as it takes until one more brings too little.
#[derive(Debug, Clone, Copy)]
pub struct ColorClusterFeatureExtractor {
    /// How many colours to report.
    pub n_clusters_out: usize,
    /// The largest number of clusters to settle on.
    pub n_clusters_max: usize,
    /// How many runs to make for each number of clusters.
    pub n_runs: usize,
    pub verbose: bool,
}

impl ColorClusterFeatureExtractor {
    /// The extractor of the feature table: three colours out of at most ten
    /// clusters, eight runs each.
    pub fn standard(verbose: bool) -> (extractor: ColorClusterFeatureExtractor)
        ensures
            extractor.n_clusters_out == 3,
            extractor.n_clusters_max == 10,
            extractor.n_runs == 8,
            extractor.verbose == verbose,
    {
        ColorClusterFeatureExtractor { n_clusters_out: 3, n_clusters_max: 10, n_runs: 8, verbose }
    }

    /// Whether the search stops at a candidate: one more cluster brings too
    /// little, or the candidate is the largest number of clusters to settle
    /// on.
    pub open spec fn stops_at(&self, fit: CandidateFit) -> bool {
        fit.diminishing || fit.k == self.n_clusters_max
    }

    /// Whether `fits` are what a search learnt of its first candidates, in
    /// the order it tries them.
    pub open spec fn tried_in_order(&self, fits: Seq<CandidateFit>) -> bool {
        forall|i: int| 0 <= i < fits.len() ==> (#[trigger] fits[i]).k == self.n_clusters_out + i
    }

    /// Whether the search stops at `elbow`, and at no candidate before it.
    pub open spec fn is_elbow(&self, fits: Seq<CandidateFit>, elbow: int) -> bool {
        &&& 0 <= elbow < fits.len()
        &&& self.stops_at(fits[elbow])
        &&& forall|i: int| 0 <= i < elbow ==> !self.stops_at(#[trigger] fits[i])
    }

    /// The numbers of clusters to try, in the order to try them: from the
    /// number of colours to report up to one more than the largest number
    /// to settle on.
    pub fn candidate_counts(&self) -> (counts: Vec<usize>)
        requires
            self.n_clusters_max < usize::MAX,
        ensures
            counts@.len() == if self.n_clusters_out <= self.n_clusters_max + 1 {
                self.n_clusters_max + 2 - self.n_clusters_out
            } else {
                0
            },
            forall|i: int|
                0 <= i < counts@.len() ==> (#[trigger] counts@[i]) == self.n_clusters_out + i,
    {
        let mut counts: Vec<usize> = Vec::new();
        let last = self.n_clusters_max + 1;
        if self.n_clusters_out > last {
            return counts;
        }
        let mut count = self.n_clusters_out;
        while count < last
            invariant
                self.n_clusters_out <= count <= last,
                counts@.len() == count - self.n_clusters_out,
                forall|i: int|
                    0 <= i < counts@.len() ==> (#[trigger] counts@[i]) == self.n_clusters_out + i,
            decreases last - count,
        {
            counts.push(count);
            count += 1;
        }
        counts.push(last);
        counts
    }

    /// The seeds of the runs to make for one number of clusters: zero and
    /// up, one for each run.
    pub fn seeds(&self) -> (seeds: Vec<u64>)
        ensures
            seeds@.len() == self.n_runs,
            forall|i: int| 0 <= i < seeds@.len() ==> (#[trigger] seeds@[i]) == i,
    {
        let mut seeds: Vec<u64> = Vec::new();
        let mut run: usize = 0;
        while run < self.n_runs
            invariant
                run <= self.n_runs,
                seeds@.len() == run,
                forall|i: int| 0 <= i < seeds@.len() ==> (#[trigger] seeds@[i]) == i,
            decreases self.n_runs - run,
        {
            seeds.push(run as u64);
            run += 1;
        }
        seeds
    }

    /// Picks the run to keep: the one with the lowest score, and of several
    /// with that score the first. There is none to keep where no run was
    /// made.
    pub fn best_run(scores: &Vec<u32>) -> (best: Option<usize>)
        ensures
            match best {
                Some(best) => is_best_run(scores@, best as int),
                None => scores@.len() == 0,
            },
    {
        if scores.len() == 0 {
            return None;
        }
        let mut best: usize = 0;
        let mut run: usize = 1;
        while run < scores.len()
            invariant
                1 <= run <= scores@.len(),
                best < run,
                forall|i: int| 0 <= i < run ==> scores@[best as int] <= #[trigger] scores@[i],
                forall|i: int| 0 <= i < best ==> scores@[best as int] < #[trigger] scores@[i],
            decreases scores@.len() - run,
        {
            if scores[run] < scores[best] {
                best = run;
            }
            run += 1;
        }
        Some(best)
    }

    /// Whether the search stops at a candidate.
    pub fn stops(&self, fit: &CandidateFit) -> (stops: bool)
        ensures
            stops == self.stops_at(*fit),
    {
        fit.diminishing || fit.k == self.n_clusters_max
    }

    /// Walks the candidates in the order they were tried and settles on the
    /// first at which the search stops. There is none where it stops at no
    /// candidate.
    pub fn select_elbow(&self, fits: &Vec<CandidateFit>) -> (elbow: Option<usize>)
        ensures
            match elbow {
                Some(elbow) => self.is_elbow(fits@, elbow as int),
                None => forall|i: int| 0 <= i < fits@.len() ==> !self.stops_at(#[trigger] fits@[i]),
            },
    {
        let mut i: usize = 0;
        while i < fits.len()
            invariant
                i <= fits@.len(),
                forall|j: int| 0 <= j < i ==> !self.stops_at(#[trigger] fits@[j]),
            decreases fits@.len() - i,
        {
            if self.stops(&fits[i]) {
                return Some(i);
            }
            i += 1;
        }
        None
    }
}

/// No two runs are both the one to keep.
pub proof fn lemma_best_run_is_unique(scores: Seq<u32>, first: int, second: int)
    requires
        is_best_run(scores, first),
        is_best_run(scores, second),
    ensures
        first == second,
{
    assert(scores[first] <= scores[second] && scores[second] <= scores[first]);
}

/// The search settles on no two candidates.
pub proof fn lemma_elbow_is_unique(
    extractor: ColorClusterFeatureExtractor,
    fits: Seq<CandidateFit>,
    first: int,
    second: int,
)
    requires
        extractor.is_elbow(fits, first),
        extractor.is_elbow(fits, second),
    ensures
        first == second,
{
}

/// A search that tries its candidates in order settles on one of them by
/// the time it has tried the largest number of clusters to settle on.
pub proof fn lemma_search_settles(extractor: ColorClusterFeatureExtractor, fits: Seq<CandidateFit>)
    requires
        extractor.n_clusters_out <= extractor.n_clusters_max,
        extractor.tried_in_order(fits),
        fits.len() > extractor.n_clusters_max - extractor.n_clusters_out,
    ensures
        exists|elbow: int| #[trigger]
            extractor.is_elbow(fits, elbow) && fits[elbow].k <= extractor.n_clusters_max,
{
    let last = extractor.n_clusters_max - extractor.n_clusters_out;
    assert(extractor.stops_at(fits[last]));
    lemma_first_stop(extractor, fits, last);
}

proof fn lemma_first_stop(
    extractor: ColorClusterFeatureExtractor,
    fits: Seq<CandidateFit>,
    stop: int,
)
    requires
        0 <= stop < fits.len(),
        extractor.stops_at(fits[stop]),
        extractor.tried_in_order(fits),
    ensures
        exists|elbow: int| #[trigger] extractor.is_elbow(fits, elbow) && fits[elbow].k <= fits[stop].k,
    decreases stop,
{
    if exists|i: int| 0 <= i < stop && extractor.stops_at(#[trigger] fits[i]) {
        let earlier = choose|i: int| 0 <= i < stop && extractor.stops_at(#[trigger] fits[i]);
        lemma_first_stop(extractor, fits, earlier);
    } else {
        assert(extractor.is_elbow(fits, stop));
    }
}

/// No two rankings of the same clusters with the same limit differ.
pub proof fn lemma_ranking_is_unique(
    weights: Seq<u32>,
    limit: nat,
    first: Seq<usize>,
    second: Seq<usize>,
)
    requires
        is_ranking(weights, limit, first),
        is_ranking(weights, limit, second),
    ensures
        first == second,
{
    assert forall|t: int| 0 <= t < first.len() implies first[t] == second[t] by {
        lemma_rankings_agree(weights, limit, first, second, t);
    }
    assert(first =~= second);
}

proof fn lemma_rankings_agree(
    weights: Seq<u32>,
    limit: nat,
    first: Seq<usize>,
    second: Seq<usize>,
    place: int,
)
    requires
        is_ranking(weights, limit, first),
        is_ranking(weights, limit, second),
        0 <= place < first.len(),
    ensures
        first[place] == second[place],
    decreases place,
{
    assert forall|t: int| 0 <= t < place implies first[t] == second[t] by {
        lemma_rankings_agree(weights, limit, first, second, t);
    }
    let i = first[place] as int;
    let j = second[place] as int;
    if i != j {
        // Each of the two is either further down the other ranking or out
        // of it, and so comes after the other's pick for this place.
        assert(beats(weights, i, j)) by {
            if ranked(first, j) {
                let t = choose|t: int| 0 <= t < first.len() && first[t] == j;
                if t < place {
                    assert(second[t] == j);
                    assert(beats(weights, second[t] as int, second[place] as int));
                }
                assert(beats(weights, first[place] as int, first[t] as int));
            }
        }
        assert(beats(weights, j, i)) by {
            if ranked(second, i) {
                let t = choose|t: int| 0 <= t < second.len() && second[t] == i;
                if t < place {
                    assert(first[t] == i);
                    assert(beats(weights, first[t] as int, first[place] as int));
                }
                assert(beats(weights, second[place] as int, second[t] as int));
            }
        }
    }
}

/// The `limit` clusters that come first, or all of them where there are
/// fewer, each before those it comes before.
pub open spec fn ranking(weights: Seq<u32>, limit: nat) -> Seq<usize> {
    choose|ranking: Seq<usize>| is_ranking(weights, limit, ranking)
}

/// Ranks clusters by weight: the `limit` heaviest, or all of them where
/// there are fewer, heaviest first, and of two of one weight first the one
/// that stood first.
pub fn rank_by_weight(weights: &Vec<u32>, limit: usize) -> (order: Vec<usize>)
    ensures
        is_ranking(weights@, limit as nat, order@),
        order@ == ranking(weights@, limit as nat),
{
    let mut order: Vec<usize> = Vec::new();
    let mut next: usize = 0;
    while next < weights.len()
        invariant
            next <= weights@.len(),
            order@.len() == next,
            forall|t: int| 0 <= t < order@.len() ==> (#[trigger] order@[t]) < next,
            forall|s: int, t: int|
                0 <= s < t < order@.len() ==> beats(
                    weights@,
                    (#[trigger] order@[s]) as int,
                    (#[trigger] order@[t]) as int,
                ),
            forall|j: int| 0 <= j < next ==> #[trigger] ranked(order@, j),
        decreases weights@.len() - next,
    {
        let mut place: usize = 0;
        while place < order.len() && weights[order[place]] >= weights[next]
            invariant
                place <= order@.len(),
                next < weights@.len(),
                forall|t: int| 0 <= t < order@.len() ==> (#[trigger] order@[t]) < next,
                forall|t: int|
                    0 <= t < place ==> weights@[(#[trigger] order@[t]) as int] >= weights@[next as int],
            decreases order@.len() - place,
        {
            place += 1;
        }
        let ghost before = order@;
        order.insert(place, next);
        proof {
            let after = order@;
            assert forall|t: int| 0 <= t < after.len() implies (#[trigger] after[t]) < next + 1 by {
                if t < place {
                    assert(after[t] == before[t]);
                } else if t > place {
                    assert(after[t] == before[t - 1]);
                }
            }
            assert forall|s: int, t: int| 0 <= s < t < after.len() implies beats(
                weights@,
                (#[trigger] after[s]) as int,
                (#[trigger] after[t]) as int,
            ) by {
                if s == place {
                    assert(after[t] == before[t - 1]);
                    if t - 1 > place {
                        assert(beats(weights@, before[place as int] as int, before[t - 1] as int));
                    }
                } else if t == place {
                    assert(after[s] == before[s]);
                } else if t < place {
                    assert(after[s] == before[s] && after[t] == before[t]);
                } else if s < place {
                    assert(after[s] == before[s] && after[t] == before[t - 1]);
                } else {
                    assert(after[s] == before[s - 1] && after[t] == before[t - 1]);
                }
            }
            assert forall|j: int| 0 <= j < next + 1 implies #[trigger] ranked(after, j) by {
                if j == next {
                    assert(after[place as int] == j);
                } else {
                    assert(ranked(before, j));
                    let t = choose|t: int| 0 <= t < before.len() && before[t] == j;
                    if t < place {
                        assert(after[t] == j);
                    } else {
                        assert(after[t + 1] == j);
                    }
                }
            }
        }
        next += 1;
    }
    let ghost full = order@;
    order.truncate(limit);
    proof {
        let kept = order@;
        assert forall|j: int| 0 <= j < weights@.len() implies #[trigger] ranked(kept, j)
            || forall|t: int|
            0 <= t < kept.len() ==> beats(weights@, (#[trigger] kept[t]) as int, j) by {
            assert(ranked(full, j));
            let place = choose|t: int| 0 <= t < full.len() && full[t] == j;
            if place < kept.len() {
                assert(kept[place] == j);
            } else {
                assert forall|t: int| 0 <= t < kept.len() implies beats(
                    weights@,
                    (#[trigger] kept[t]) as int,
                    j,
                ) by {
                    assert(kept[t] == full[t]);
                    assert(beats(weights@, full[t] as int, full[place] as int));
                }
            }
        }
        assert(is_ranking(weights@, limit as nat, kept));
        lemma_ranking_is_unique(weights@, limit as nat, kept, ranking(weights@, limit as nat));
    }
    order
}

impl ColorClusterFeatureExtractor {
    /// Puts the feature together from what a search learnt: the candidate
    /// at which it stops first, and of the clusters of that candidate's run
    /// the heaviest, as many as there are colours to report, heaviest first.
    /// There is no feature where the search stops at none of the candidates.
    ///
    /// An extractor has to report no more colours than the largest number of
    /// clusters it settles on, and to make at least one run.
    pub fn extract(&self, fits: &Vec<CandidateFit>, palette: &Vec<WeightedColor>) -> (feature:
        Option<ColorClusterFeature>)
        requires
            self.n_clusters_out <= self.n_clusters_max,
            self.n_runs >= 1,
        ensures
            is_ranking(
                weights_of(palette@),
                self.n_clusters_out as nat,
                ranking(weights_of(palette@), self.n_clusters_out as nat),
            ),
            match feature {
                None => forall|i: int| 0 <= i < fits@.len() ==> !self.stops_at(#[trigger] fits@[i]),
                Some(feature) => {
                    &&& exists|elbow: int| #[trigger]
                        self.is_elbow(fits@, elbow) && feature.k == fits@[elbow].k
                    &&& feature.n_clusters_out == self.n_clusters_out
                    &&& feature.cluster@.len() == ranking(
                        weights_of(palette@),
                        self.n_clusters_out as nat,
                    ).len()
                    &&& forall|t: int|
                        0 <= t < feature.cluster@.len() ==> (#[trigger] feature.cluster@[t])@
                            == palette@[ranking(
                            weights_of(palette@),
                            self.n_clusters_out as nat,
                        )[t] as int].color@
                },
            },
    {
        let mut weights: Vec<u32> = Vec::new();
        let mut i: usize = 0;
        while i < palette.len()
            invariant
                i <= palette@.len(),
                weights@.len() == i,
                forall|j: int| 0 <= j < i ==> (#[trigger] weights@[j]) == palette@[j].weight,
            decreases palette@.len() - i,
        {
            weights.push(palette[i].weight);
            i += 1;
        }
        assert(weights@ =~= weights_of(palette@));
        let order = rank_by_weight(&weights, self.n_clusters_out);
        let elbow = match self.select_elbow(fits) {
            Some(elbow) => elbow,
            None => {
                return None;
            },
        };
        let mut cluster: Vec<LabColor> = Vec::new();
        let mut t: usize = 0;
        while t < order.len()
            invariant
                t <= order@.len(),
                cluster@.len() == t,
                is_ranking(weights_of(palette@), self.n_clusters_out as nat, order@),
                forall|s: int|
                    0 <= s < t ==> (#[trigger] cluster@[s])@ == palette@[order@[s] as int].color@,
            decreases order@.len() - t,
        {
            cluster.push(palette[order[t]].color.duplicate());
            t += 1;
        }
        Some(ColorClusterFeature { cluster, k: fits[elbow].k, n_clusters_out: self.n_clusters_out })
    }
}

} // verus!
