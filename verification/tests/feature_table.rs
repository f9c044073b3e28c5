use std::io::Cursor;
use std::rc::Rc;

use imaging_lib::color_cluster::{
    CandidateFit, ColorClusterFeature, ColorClusterFeatureExtractor, LabColor, WeightedColor,
    ELBOW_RATIO_PARTS, ELBOW_RATIO_WHOLE, KMEANS_MAX_ITERATIONS, KMEANS_TOLERANCE_PARTS,
    KMEANS_TOLERANCE_WHOLE,
};
use imaging_lib::download::ImageDownloadRecord;
use imaging_lib::extraction::{
    data_row, header_row, work_list, ExtractedFeature, Extraction, ExtractorSet,
};
use imaging_lib::features::{
    BrightnessAndContrastFeature, ChannelStatistics, CsvRecordProvider, DimensionFeature,
};
use imaging_lib::raster::Raster;
use itertools::Itertools;
use kmeans_colors::{get_kmeans, Calculate, Kmeans, Sort};
use palette::{IntoColor, Lab, Srgb};

fn record(name: &str) -> ImageDownloadRecord {
    ImageDownloadRecord {
        filename: format!("{}.png", name),
        url: format!("http://images.test/{}", name),
        completed: true,
        error: None,
    }
}

fn dimension(width: u32, height: u32) -> DimensionFeature {
    DimensionFeature { width, height, asp_ratio: (width as f64 / height as f64).to_string() }
}

fn texts(prefix: &str) -> [String; 4] {
    [
        format!("{}r", prefix),
        format!("{}g", prefix),
        format!("{}b", prefix),
        format!("{}avg", prefix),
    ]
}

fn plain_features() -> Vec<ExtractedFeature> {
    ExtractorSet::standard(false).line_up(
        dimension(8, 4),
        BrightnessAndContrastFeature { brightness: texts("b"), contrast: texts("c") },
        ColorClusterFeature {
            cluster: vec![LabColor { l: "1".to_string(), a: "2".to_string(), b: "3".to_string() }],
            k: 5,
            n_clusters_out: 3,
        },
    )
}

const COLUMNS: [&str; 23] = [
    "url",
    "filename",
    "width",
    "height",
    "asp_ratio",
    "brightness_r",
    "brightness_g",
    "brightness_b",
    "brightness_avg",
    "contrast_r",
    "contrast_g",
    "contrast_b",
    "contrast_avg",
    "color_cluster_k",
    "color_cluster_0_l",
    "color_cluster_0_a",
    "color_cluster_0_b",
    "color_cluster_1_l",
    "color_cluster_1_a",
    "color_cluster_1_b",
    "color_cluster_2_l",
    "color_cluster_2_a",
    "color_cluster_2_b",
];

fn order_key(value: f32) -> u32 {
    assert!(!value.is_nan());
    let bits = value.to_bits();
    if bits & 0x8000_0000 != 0 {
        !bits
    } else {
        bits | 0x8000_0000
    }
}

fn within_sum_of_squares(run: &Kmeans<Lab>, data: &[Lab]) -> f64 {
    let mut sums = vec![0.0_f64; run.centroids.len()];
    for (label, point) in run.indices.iter().zip(data.iter()) {
        sums[*label as usize] += Calculate::difference(&run.centroids[*label as usize], point) as f64;
    }
    sums.iter().sum()
}

fn color_cluster(extractor: &ColorClusterFeatureExtractor, image: &Raster) -> ColorClusterFeature {
    let lab: Vec<Lab> = image
        .samples()
        .chunks_exact(3)
        .map(|p| Srgb::new(p[0], p[1], p[2]).into_format().into_color())
        .collect();
    let tolerance = KMEANS_TOLERANCE_PARTS as f32 / KMEANS_TOLERANCE_WHOLE as f32;
    let elbow_ratio = ELBOW_RATIO_PARTS as f64 / ELBOW_RATIO_WHOLE as f64;
    let seeds = extractor.seeds();
    let mut fits: Vec<CandidateFit> = Vec::new();
    let selected = extractor
        .candidate_counts()
        .into_iter()
        .map(|n_clusters| {
            let mut runs: Vec<Kmeans<Lab>> = seeds
                .iter()
                .map(|seed| {
                    get_kmeans(n_clusters, KMEANS_MAX_ITERATIONS, tolerance, false, &lab, *seed)
                })
                .collect();
            let scores: Vec<u32> = runs.iter().map(|run| order_key(run.score)).collect();
            let best = ColorClusterFeatureExtractor::best_run(&scores).unwrap();
            let run = runs.swap_remove(best);
            let spread = within_sum_of_squares(&run, &lab);
            Rc::new((n_clusters, run, spread))
        })
        .tuple_windows()
        .find_map(|(this, next)| {
            fits.push(CandidateFit { k: this.0, diminishing: next.2 / this.2 > elbow_ratio });
            extractor.select_elbow(&fits).map(|_| this.1.clone())
        })
        .unwrap();
    let palette: Vec<WeightedColor> = Lab::sort_indexed_colors(&selected.centroids, &selected.indices)
        .iter()
        .map(|c| WeightedColor {
            weight: order_key(c.percentage),
            color: LabColor {
                l: c.centroid.l.to_string(),
                a: c.centroid.a.to_string(),
                b: c.centroid.b.to_string(),
            },
        })
        .collect();
    let feature = extractor.extract(&fits, &palette).unwrap();
    assert_eq!(feature.k, fits.last().unwrap().k);
    feature
}

fn measure(extractors: &ExtractorSet, image: &Raster) -> Vec<ExtractedFeature> {
    let asp_ratio = (image.width() as f64 / image.height() as f64).to_string();
    let statistics = extractors.brightness_contrast.extract(image);
    let pixels = statistics.pixels as f64;
    let brightness = |channel: &ChannelStatistics| channel.sum as f64 / pixels;
    let contrast = |channel: &ChannelStatistics| {
        let parts = channel.parts as f64;
        let mean = brightness(channel);
        let exact_mean = channel.exact_sum as f64 / parts / pixels;
        let square_mean = channel.square_sum as f64 / (parts * parts) / pixels;
        (square_mean - 2.0 * mean * exact_mean + mean * mean).max(0.0).sqrt()
    };
    extractors.line_up(
        extractors.dimension.extract(image, asp_ratio),
        BrightnessAndContrastFeature {
            brightness: [
                (brightness(&statistics.red) / 255.0).to_string(),
                (brightness(&statistics.green) / 255.0).to_string(),
                (brightness(&statistics.blue) / 255.0).to_string(),
                (brightness(&statistics.average) / 255.0).to_string(),
            ],
            contrast: [
                (contrast(&statistics.red) / 255.0).to_string(),
                (contrast(&statistics.green) / 255.0).to_string(),
                (contrast(&statistics.blue) / 255.0).to_string(),
                (contrast(&statistics.average) / 255.0).to_string(),
            ],
        },
        color_cluster(&extractors.color_cluster, image),
    )
}

/// An image of four flat bands of colour, eight pixels each.
fn banded_png() -> Vec<u8> {
    let bands: [[u8; 3]; 4] = [[250, 10, 10], [10, 250, 10], [10, 10, 250], [240, 240, 240]];
    let samples: Vec<u8> = bands.iter().flat_map(|band| band.repeat(8)).collect();
    let image = image::RgbImage::from_raw(8, 4, samples).unwrap();
    let mut bytes: Vec<u8> = Vec::new();
    image.write_to(&mut Cursor::new(&mut bytes), image::ImageOutputFormat::Png).unwrap();
    bytes
}

#[test]
fn extractors_line_up_in_column_order() {
    let features = plain_features();
    assert_eq!(features.len(), 3);
    assert!(matches!(features[0], ExtractedFeature::Dimension(_)));
    assert!(matches!(features[1], ExtractedFeature::BrightnessContrast(_)));
    assert!(matches!(features[2], ExtractedFeature::ColorCluster(_)));
    assert_eq!(features[0].headers(), vec!["width", "height", "asp_ratio"]);
    assert_eq!(features[0].values(), vec!["8", "4", "2"]);
    assert_eq!(features[1].headers().len(), 8);
    assert_eq!(features[2].values(), vec!["5", "1", "2", "3"]);
}

#[test]
fn header_names_source_then_features() {
    assert_eq!(header_row(&plain_features()), COLUMNS.to_vec());
    assert_eq!(header_row(&Vec::new()), vec!["url", "filename"]);
}

#[test]
fn row_holds_source_then_values() {
    let row = data_row(&record("a"), &plain_features());
    assert_eq!(
        row,
        vec![
            "http://images.test/a",
            "a.png",
            "8",
            "4",
            "2",
            "br",
            "bg",
            "bb",
            "bavg",
            "cr",
            "cg",
            "cb",
            "cavg",
            "5",
            "1",
            "2",
            "3",
        ]
    );
    assert_eq!(data_row(&record("b"), &Vec::new()), vec!["http://images.test/b", "b.png"]);
}

#[test]
fn work_list_without_limit_is_everything() {
    let work = work_list(vec![record("a"), record("b"), record("c")], 0);
    assert_eq!(work.len(), 3);
    assert_eq!(work[2].filename, "c.png");
}

#[test]
fn work_list_with_limit_is_the_first_few() {
    let work = work_list(vec![record("a"), record("b"), record("c")], 2);
    assert_eq!(work.len(), 2);
    assert_eq!(work[0].filename, "a.png");
    assert_eq!(work[1].filename, "b.png");
    assert_eq!(work_list(vec![record("a")], 5).len(), 1);
    assert_eq!(work_list(vec![record("a"), record("b")], 2).len(), 2);
    assert!(work_list(Vec::new(), 3).is_empty());
}

#[test]
fn header_is_written_once() {
    let mut run = Extraction::begin();
    assert_eq!(run.report(), "0 completed. (0 skipped, 0 failed)");
    let first = run.record_row(&record("a"), &plain_features());
    assert_eq!(first.len(), 2);
    assert_eq!(first[0], COLUMNS.to_vec());
    assert_eq!(first[1][1], "a.png");
    let second = run.record_row(&record("b"), &plain_features());
    assert_eq!(second.len(), 1);
    assert_eq!(second[0][0], "http://images.test/b");
    assert_eq!(second[0].len(), 17);
    assert_eq!(run.progress().completed(), 2);
    assert_eq!(run.progress().failed(), 0);
    assert_eq!(run.report(), "2 completed. (0 skipped, 0 failed)");
}

#[test]
fn failure_before_the_first_row_leaves_the_header_to_it() {
    let mut run = Extraction::begin();
    run.record_failure();
    run.record_failure();
    assert_eq!(run.report(), "0 completed. (0 skipped, 2 failed)");
    let lines = run.record_row(&record("a"), &plain_features());
    assert_eq!(lines.len(), 2);
    assert_eq!(lines[0], COLUMNS.to_vec());
    assert_eq!(run.progress().completed(), 1);
    assert_eq!(run.progress().failed(), 2);
    assert_eq!(run.progress().skipped(), 0);
    assert_eq!(run.progress().total(), 0);
}

#[test]
fn archive_of_one_image_and_one_corrupted_blob() {
    let archive: Vec<(ImageDownloadRecord, Vec<u8>)> = vec![
        (record("blob"), vec![0x00, 0x01, 0x02, 0x03, 0xff, 0xfe, 0xfd]),
        (record("bands"), banded_png()),
    ];
    let extractors = ExtractorSet::standard(false);
    let mut run = Extraction::begin();
    let mut table: Vec<Vec<String>> = Vec::new();
    for (record, bytes) in archive {
        match Raster::decode(&bytes) {
            Ok(image) => table.extend(run.record_row(&record, &measure(&extractors, &image))),
            Err(_) => run.record_failure(),
        }
    }

    assert_eq!(table.len(), 2);
    assert_eq!(table[0], COLUMNS.to_vec());
    let row = &table[1];
    assert_eq!(row[0], "http://images.test/bands");
    assert_eq!(row[1], "bands.png");
    assert_eq!(row[2], "8");
    assert_eq!(row[3], "4");
    assert_eq!(row[4], "2");
    // Means of the bands: (250 + 10 + 10 + 240) / 4, and of the rounded-down
    // pixel means (90 + 90 + 90 + 240) / 4.
    assert_eq!(row[5], "0.5");
    assert_eq!(row[6], "0.5");
    assert_eq!(row[7], "0.5");
    assert_eq!(row[8], "0.5");
    for cell in &row[5..13] {
        let value: f64 = cell.parse().unwrap();
        assert!((0.0..=1.0).contains(&value));
    }
    // The search settles on one of its candidates, and the three heaviest
    // clusters are named.
    let k: usize = row[13].parse().unwrap();
    assert!((3..=10).contains(&k));
    assert_eq!(row.len(), 23);
    for cell in &row[14..] {
        assert!(cell.parse::<f32>().is_ok());
    }
    assert_eq!(run.progress().completed(), 1);
    assert_eq!(run.progress().failed(), 1);
    assert_eq!(run.report(), "1 completed. (0 skipped, 1 failed)");
}

#[test]
fn clustering_selects_the_same_colours_again() {
    let image = Raster::decode(&banded_png()).unwrap();
    let extractor = ColorClusterFeatureExtractor::standard(false);
    let first = color_cluster(&extractor, &image);
    let second = color_cluster(&extractor, &image);
    assert_eq!(first.k, second.k);
    assert_eq!(first.values(), second.values());
}
