//! The feature table: which features fill a row, what the header reads, and
//! the bookkeeping of an extraction run.
//!
//! Reading the archive and writing the table are the caller's. For each
//! record of the work list it decodes the image and measures it, then tells
//! the [`Extraction`] how that went, which answers with the lines to write.

use crate::color_cluster::{ColorClusterFeature, ColorClusterFeatureExtractor};
use crate::download::{scope_of, ImageDownloadRecord, LedgerEntry};
use crate::features::{
    cells_of, BrightnessAndContrastFeature, BrightnessAndContrastFeatureExtractor,
    CsvRecordProvider, DimensionFeature, DimensionFeatureExtractor,
};
use crate::progress::{summary_line, Progress};
use vstd::prelude::*;
use vstd::string::*;

verus! {

/// A feature of one of the kinds that the table holds.
#[derive(Debug)]
pub enum ExtractedFeature {
    Dimension(DimensionFeature),
    BrightnessContrast(BrightnessAndContrastFeature),
    ColorCluster(ColorClusterFeature),
}

impl CsvRecordProvider for ExtractedFeature {
    open spec fn header_cells(&self) -> Seq<Seq<char>> {
        match self {
            ExtractedFeature::Dimension(feature) => feature.header_cells(),
            ExtractedFeature::BrightnessContrast(feature) => feature.header_cells(),
            ExtractedFeature::ColorCluster(feature) => feature.header_cells(),
        }
    }

    open spec fn value_cells(&self) -> Seq<Seq<char>> {
        match self {
            ExtractedFeature::Dimension(feature) => feature.value_cells(),
            ExtractedFeature::BrightnessContrast(feature) => feature.value_cells(),
            ExtractedFeature::ColorCluster(feature) => feature.value_cells(),
        }
    }

    fn headers(&self) -> (names: Vec<String>) {
        match self {
            ExtractedFeature::Dimension(feature) => feature.headers(),
            ExtractedFeature::BrightnessContrast(feature) => feature.headers(),
            ExtractedFeature::ColorCluster(feature) => feature.headers(),
        }
    }

    fn values(&self) -> (texts: Vec<String>) {
        match self {
            ExtractedFeature::Dimension(feature) => feature.values(),
            ExtractedFeature::BrightnessContrast(feature) => feature.values(),
            ExtractedFeature::ColorCluster(feature) => feature.values(),
        }
    }
}

/// The extractors of the feature table, in the order of their columns.
#[derive(Debug, Clone, Copy)]
pub struct ExtractorSet {
    pub dimension: DimensionFeatureExtractor,
    pub brightness_contrast: BrightnessAndContrastFeatureExtractor,
    pub color_cluster: ColorClusterFeatureExtractor,
}

impl ExtractorSet {
    /// The extractors of the feature table as it is made by default.
    pub fn standard(verbose: bool) -> (extractors: ExtractorSet)
        ensures
            extractors.color_cluster.n_clusters_out == 3,
            extractors.color_cluster.n_clusters_max == 10,
            extractors.color_cluster.n_runs == 8,
            extractors.color_cluster.verbose == verbose,
    {
        ExtractorSet {
            dimension: DimensionFeatureExtractor,
            brightness_contrast: BrightnessAndContrastFeatureExtractor,
            color_cluster: ColorClusterFeatureExtractor::standard(verbose),
        }
    }

    /// Lines up what the three extractors found of one image, in the order
    /// of their columns: size, then brightness and contrast, then colours.
    pub fn line_up(
        &self,
        dimension: DimensionFeature,
        brightness_contrast: BrightnessAndContrastFeature,
        color_cluster: ColorClusterFeature,
    ) -> (features: Vec<ExtractedFeature>)
        ensures
            features@ == seq![
                ExtractedFeature::Dimension(dimension),
                ExtractedFeature::BrightnessContrast(brightness_contrast),
                ExtractedFeature::ColorCluster(color_cluster),
            ],
    {
        let mut features: Vec<ExtractedFeature> = Vec::new();
        features.push(ExtractedFeature::Dimension(dimension));
        features.push(ExtractedFeature::BrightnessContrast(brightness_contrast));
        features.push(ExtractedFeature::ColorCluster(color_cluster));
        assert(features@ =~= seq![
            ExtractedFeature::Dimension(dimension),
            ExtractedFeature::BrightnessContrast(brightness_contrast),
            ExtractedFeature::ColorCluster(color_cluster),
        ]);
        features
    }
}

/// The column names of some features, one feature after the other.
pub open spec fn header_cells_of(features: Seq<ExtractedFeature>) -> Seq<Seq<char>>
    decreases features.len(),
{
    if features.len() == 0 {
        Seq::empty()
    } else {
        header_cells_of(features.drop_last()) + features.last().header_cells()
    }
}

/// The values of some features, one feature after the other.
pub open spec fn value_cells_of(features: Seq<ExtractedFeature>) -> Seq<Seq<char>>
    decreases features.len(),
{
    if features.len() == 0 {
        Seq::empty()
    } else {
        value_cells_of(features.drop_last()) + features.last().value_cells()
    }
}

/// The header of the table: the image's source and file name, then the
/// columns of each feature in turn.
pub open spec fn table_header(features: Seq<ExtractedFeature>) -> Seq<Seq<char>> {
    seq!["url"@, "filename"@] + header_cells_of(features)
}

/// The row of an image: its source and file name, then the values of each
/// feature in turn.
pub open spec fn table_row(entry: LedgerEntry, features: Seq<ExtractedFeature>) -> Seq<Seq<char>> {
    seq![entry.url, entry.filename] + value_cells_of(features)
}

/// Whether two features fill the same columns: they are of one kind, and
/// where they are colours they report as many.
pub open spec fn same_columns(first: ExtractedFeature, second: ExtractedFeature) -> bool {
    match (first, second) {
        (ExtractedFeature::Dimension(_), ExtractedFeature::Dimension(_)) => true,
        (ExtractedFeature::BrightnessContrast(_), ExtractedFeature::BrightnessContrast(_)) => true,
        (ExtractedFeature::ColorCluster(first), ExtractedFeature::ColorCluster(second)) => {
            first.n_clusters_out == second.n_clusters_out
        },
        _ => false,
    }
}

/// Whether a feature has a value for each of its columns.
pub open spec fn fills_its_columns(feature: ExtractedFeature) -> bool {
    match feature {
        ExtractedFeature::ColorCluster(feature) => feature.cluster@.len()
            == feature.n_clusters_out,
        _ => true,
    }
}

/// The header does not depend on the image: features of the same kinds, in
/// the same order, make the same header whatever was measured.
pub proof fn lemma_header_is_data_independent(
    first: Seq<ExtractedFeature>,
    second: Seq<ExtractedFeature>,
)
    requires
        first.len() == second.len(),
        forall|i: int| 0 <= i < first.len() ==> same_columns(#[trigger] first[i], second[i]),
    ensures
        table_header(first) == table_header(second),
{
    lemma_header_cells_are_data_independent(first, second);
}

proof fn lemma_header_cells_are_data_independent(
    first: Seq<ExtractedFeature>,
    second: Seq<ExtractedFeature>,
)
    requires
        first.len() == second.len(),
        forall|i: int| 0 <= i < first.len() ==> same_columns(#[trigger] first[i], second[i]),
    ensures
        header_cells_of(first) == header_cells_of(second),
    decreases first.len(),
{
    if first.len() > 0 {
        assert forall|i: int| 0 <= i < first.drop_last().len() implies same_columns(
            #[trigger] first.drop_last()[i],
            second.drop_last()[i],
        ) by {
            assert(same_columns(first[i], second[i]));
        }
        lemma_header_cells_are_data_independent(first.drop_last(), second.drop_last());
        assert(same_columns(first[first.len() - 1], second[first.len() - 1]));
        assert(first.last().header_cells() =~= second.last().header_cells());
    }
}

/// A row has a cell for each column of the header where every feature has
/// a value for each of its columns.
pub proof fn lemma_row_fits_header(entry: LedgerEntry, features: Seq<ExtractedFeature>)
    requires
        forall|i: int| 0 <= i < features.len() ==> fills_its_columns(#[trigger] features[i]),
    ensures
        table_row(entry, features).len() == table_header(features).len(),
{
    lemma_values_fit_columns(features);
}

proof fn lemma_values_fit_columns(features: Seq<ExtractedFeature>)
    requires
        forall|i: int| 0 <= i < features.len() ==> fills_its_columns(#[trigger] features[i]),
    ensures
        value_cells_of(features).len() == header_cells_of(features).len(),
    decreases features.len(),
{
    if features.len() > 0 {
        assert forall|i: int| 0 <= i < features.drop_last().len() implies fills_its_columns(
            #[trigger] features.drop_last()[i],
        ) by {
            assert(fills_its_columns(features[i]));
        }
        lemma_values_fit_columns(features.drop_last());
        assert(fills_its_columns(features[features.len() - 1]));
    }
}

/// Writes the header of the table for these features.
pub fn header_row(features: &Vec<ExtractedFeature>) -> (row: Vec<String>)
    ensures
        cells_of(row@) == table_header(features@),
{
    let mut row: Vec<String> = Vec::new();
    row.push(String::from_str("url"));
    row.push(String::from_str("filename"));
    let mut i: usize = 0;
    while i < features.len()
        invariant
            i <= features@.len(),
            cells_of(row@) == table_header(features@.subrange(0, i as int)),
        decreases features@.len() - i,
    {
        let ghost before = row@;
        let mut names = features[i].headers();
        let ghost added = names@;
        row.append(&mut names);
        proof {
            let so_far = features@.subrange(0, i as int);
            let with_next = features@.subrange(0, i + 1);
            assert(with_next.drop_last() =~= so_far);
            assert(with_next.last() == features@[i as int]);
            assert(cells_of(before + added) =~= cells_of(before) + cells_of(added));
        }
        i += 1;
    }
    assert(features@.subrange(0, features@.len() as int) =~= features@);
    row
}

/// Writes the row of an image with these features.
pub fn data_row(record: &ImageDownloadRecord, features: &Vec<ExtractedFeature>) -> (row: Vec<
    String,
>)
    ensures
        cells_of(row@) == table_row(record@, features@),
{
    let mut row: Vec<String> = Vec::new();
    row.push(record.url.clone());
    row.push(record.filename.clone());
    let mut i: usize = 0;
    while i < features.len()
        invariant
            i <= features@.len(),
            cells_of(row@) == table_row(record@, features@.subrange(0, i as int)),
        decreases features@.len() - i,
    {
        let ghost before = row@;
        let mut texts = features[i].values();
        let ghost added = texts@;
        row.append(&mut texts);
        proof {
            let so_far = features@.subrange(0, i as int);
            let with_next = features@.subrange(0, i + 1);
            assert(with_next.drop_last() =~= so_far);
            assert(with_next.last() == features@[i as int]);
            assert(cells_of(before + added) =~= cells_of(before) + cells_of(added));
        }
        i += 1;
    }
    assert(features@.subrange(0, features@.len() as int) =~= features@);
    row
}

/// The records that a run with this `limit` works on: all of them without a
/// limit, else the first `limit`.
pub fn work_list(records: Vec<ImageDownloadRecord>, limit: usize) -> (work: Vec<
    ImageDownloadRecord,
>)
    ensures
        work@ == records@.subrange(0, scope_of(records@.len(), limit as nat) as int),
{
    let mut work = records;
    if limit > 0 {
        work.truncate(limit);
    }
    assert(work@ =~= records@.subrange(0, scope_of(records@.len(), limit as nat) as int));
    work
}

/// An extraction run: whether the header is written, and how many images
/// were decoded and how many were not.
#[derive(Debug)]
pub struct Extraction {
    header_written: bool,
    completed: usize,
    failed: usize,
}

/// The state of an extraction run.
pub struct ExtractionState {
    pub header_written: bool,
    pub completed: nat,
    pub failed: nat,
}

impl View for Extraction {
    type V = ExtractionState;

    closed spec fn view(&self) -> ExtractionState {
        ExtractionState {
            header_written: self.header_written,
            completed: self.completed as nat,
            failed: self.failed as nat,
        }
    }
}

impl Extraction {
    /// A run that has written nothing and counted nothing.
    pub fn begin() -> (run: Extraction)
        ensures
            run@ == (ExtractionState { header_written: false, completed: 0, failed: 0 }),
    {
        Extraction { header_written: false, completed: 0, failed: 0 }
    }

    /// Takes in the features of an image that was decoded, and answers with
    /// the lines to write to the table: the row of the image, and before it
    /// the header where this is the first image of the run. The image counts
    /// as completed.
    pub fn record_row(
        &mut self,
        record: &ImageDownloadRecord,
        features: &Vec<ExtractedFeature>,
    ) -> (lines: Vec<Vec<String>>)
        requires
            old(self)@.completed < usize::MAX,
        ensures
            final(self)@ == (ExtractionState {
                header_written: true,
                completed: old(self)@.completed + 1,
                failed: old(self)@.failed,
            }),
            old(self)@.header_written ==> lines@.len() == 1,
            !old(self)@.header_written ==> lines@.len() == 2 && cells_of(lines@[0]@)
                == table_header(features@),
            cells_of(lines@.last()@) == table_row(record@, features@),
    {
        let mut lines: Vec<Vec<String>> = Vec::new();
        if !self.header_written {
            lines.push(header_row(features));
            self.header_written = true;
        }
        lines.push(data_row(record, features));
        self.completed += 1;
        lines
    }

    /// Takes in that an image could not be decoded: it fills no row and
    /// counts as failed.
    pub fn record_failure(&mut self)
        requires
            old(self)@.failed < usize::MAX,
        ensures
            final(self)@ == (ExtractionState {
                header_written: old(self)@.header_written,
                completed: old(self)@.completed,
                failed: old(self)@.failed + 1,
            }),
    {
        self.failed += 1;
    }

    /// The tally of the run: its total is not known, and nothing is skipped.
    pub fn progress(&self) -> (progress: Progress)
        ensures
            progress.completed_count() == self@.completed,
            progress.failed_count() == self@.failed,
            progress.skipped_count() == 0,
            progress.total_count() == 0,
    {
        Progress::of_counts(self.completed, 0, self.failed, 0)
    }

    /// The line that reports the tally of the run: the counts alone, the
    /// total not being known.
    pub fn report(&self) -> (line: String)
        ensures
            line@ == summary_line(self@.completed, 0, self@.failed, 0, Seq::empty()),
    {
        proof {
            reveal_strlit("");
        }
        let line = self.progress().summary("");
        assert(""@ =~= Seq::<char>::empty());
        line
    }
}

} // verus!
