//! The features measured on an image, and the table cells they fill.

use crate::raster::{Raster, RasterView};
use crate::text::{decimal, to_decimal};
use vstd::prelude::*;
use vstd::string::*;

verus! {

/// What each of a row of cells reads.
pub open spec fn cells_of(texts: Seq<String>) -> Seq<Seq<char>> {
    Seq::new(texts.len(), |i: int| texts[i]@)
}

/// A feature that fills cells of the feature table: a fixed run of named
/// columns, and a value for each.
pub trait CsvRecordProvider {
    /// The names of the columns.
    spec fn header_cells(&self) -> Seq<Seq<char>>;

    /// The values, column by column.
    spec fn value_cells(&self) -> Seq<Seq<char>>;

    fn headers(&self) -> (names: Vec<String>)
        ensures
            cells_of(names@) == self.header_cells(),
    ;

    fn values(&self) -> (texts: Vec<String>)
        ensures
            cells_of(texts@) == self.value_cells(),
    ;
}

/// The size of an image. `asp_ratio` reads the quotient of width by height.
#[derive(Debug)]
pub struct DimensionFeature {
    pub width: u32,
    pub height: u32,
    pub asp_ratio: String,
}

impl CsvRecordProvider for DimensionFeature {
    open spec fn header_cells(&self) -> Seq<Seq<char>> {
        seq!["width"@, "height"@, "asp_ratio"@]
    }

    open spec fn value_cells(&self) -> Seq<Seq<char>> {
        seq![decimal(self.width as nat), decimal(self.height as nat), self.asp_ratio@]
    }

    fn headers(&self) -> (names: Vec<String>) {
        let mut names: Vec<String> = Vec::new();
        names.push(String::from_str("width"));
        names.push(String::from_str("height"));
        names.push(String::from_str("asp_ratio"));
        assert(cells_of(names@) =~= self.header_cells());
        names
    }

    fn values(&self) -> (texts: Vec<String>) {
        let mut texts: Vec<String> = Vec::new();
        texts.push(to_decimal(self.width as u128));
        texts.push(to_decimal(self.height as u128));
        texts.push(self.asp_ratio.clone());
        assert(cells_of(texts@) =~= self.value_cells());
        texts
    }
}

/// Measures the size of an image.
#[derive(Debug, Clone, Copy)]
pub struct DimensionFeatureExtractor;

impl DimensionFeatureExtractor {
    /// Reads width and height off the image. The quotient of the two is the
    /// caller's to work out and to write; it is taken as it comes.
    pub fn extract(&self, image: &Raster, asp_ratio: String) -> (feature: DimensionFeature)
        ensures
            feature.width == image@.width,
            feature.height == image@.height,
            feature.asp_ratio@ == asp_ratio@,
    {
        DimensionFeature { width: image.width(), height: image.height(), asp_ratio }
    }
}

/// The number of channels that brightness and contrast are measured on:
/// red, green, blue, and their average, in this order.
pub const MEASURED_CHANNELS: usize = 4;

/// The largest value of a sample.
pub const SAMPLE_MAX: u8 = 255;

/// What pixel `pixel` counts for in the brightness of a channel: its sample
/// on a colour channel, and on the average channel the whole part of the
/// mean of its three samples.
pub open spec fn channel_value(image: RasterView, pixel: int, channel: int) -> int {
    if channel < 3 {
        image.sample(pixel, channel) as int
    } else {
        (image.sample(pixel, 0) + image.sample(pixel, 1) + image.sample(pixel, 2)) / 3
    }
}

/// In how many parts of one the exact values of a channel are counted: a
/// colour channel holds whole numbers, the average channel thirds.
pub open spec fn deviation_parts(channel: int) -> int {
    if channel < 3 {
        1
    } else {
        3
    }
}

/// What pixel `pixel` counts for in the contrast of a channel, in
/// [`deviation_parts`] of one: its sample on a colour channel, and on the
/// average channel the exact mean of its three samples.
pub open spec fn exact_value(image: RasterView, pixel: int, channel: int) -> int {
    if channel < 3 {
        image.sample(pixel, channel) as int
    } else {
        image.sample(pixel, 0) + image.sample(pixel, 1) + image.sample(pixel, 2)
    }
}

/// The sum of [`channel_value`] over the first `pixels` pixels. Brightness
/// is this sum over the whole image, over the number of pixels and over
/// [`SAMPLE_MAX`].
pub open spec fn channel_sum(image: RasterView, channel: int, pixels: int) -> int
    decreases pixels,
{
    if pixels <= 0 {
        0
    } else {
        channel_sum(image, channel, pixels - 1) + channel_value(image, pixels - 1, channel)
    }
}

/// The sum of [`exact_value`] over the first `pixels` pixels.
pub open spec fn exact_sum(image: RasterView, channel: int, pixels: int) -> int
    decreases pixels,
{
    if pixels <= 0 {
        0
    } else {
        exact_sum(image, channel, pixels - 1) + exact_value(image, pixels - 1, channel)
    }
}

/// The sum of the squares of [`exact_value`] over the first `pixels` pixels.
pub open spec fn square_sum(image: RasterView, channel: int, pixels: int) -> int
    decreases pixels,
{
    if pixels <= 0 {
        0
    } else {
        square_sum(image, channel, pixels - 1) + exact_value(image, pixels - 1, channel)
            * exact_value(image, pixels - 1, channel)
    }
}

/// The squared deviations of the exact values of a channel from the mean
/// that its brightness is taken from, summed over the image and cleared of
/// fractions: with `n` pixels and `p` parts, `n * p * p` times that sum.
/// Contrast is the square root of this number, over `n * p` and over
/// [`SAMPLE_MAX`].
pub open spec fn spread(image: RasterView, channel: int) -> int {
    let n = image.pixels() as int;
    let scaled = deviation_parts(channel) * channel_sum(image, channel, n);
    n * square_sum(image, channel, n) - 2 * (scaled * exact_sum(image, channel, n)) + scaled
        * scaled
}

/// What was measured on one channel: whole numbers, from which brightness
/// and contrast are one quotient and one root away.
#[derive(Debug, Clone, Copy)]
pub struct ChannelStatistics {
    /// In how many parts of one the exact values are counted.
    pub parts: u8,
    /// The sum of the values that brightness is the mean of.
    pub sum: u128,
    /// The sum of the exact values, in parts.
    pub exact_sum: u128,
    /// The sum of the squares of the exact values, in parts.
    pub square_sum: u128,
}

/// What was measured on an image for brightness and contrast.
#[derive(Debug, Clone, Copy)]
pub struct BrightnessAndContrastStatistics {
    /// The number of pixels measured.
    pub pixels: usize,
    pub red: ChannelStatistics,
    pub green: ChannelStatistics,
    pub blue: ChannelStatistics,
    pub average: ChannelStatistics,
}

impl ChannelStatistics {
    /// Whether these are the statistics of `channel` of `image`.
    pub open spec fn measures(self, image: RasterView, channel: int) -> bool {
        &&& self.parts == deviation_parts(channel)
        &&& self.sum == channel_sum(image, channel, image.pixels() as int)
        &&& self.exact_sum == exact_sum(image, channel, image.pixels() as int)
        &&& self.square_sum == square_sum(image, channel, image.pixels() as int)
    }
}

/// The three sums of a channel over some pixels are at most what the largest
/// sample gives for each pixel.
pub proof fn lemma_sums_bounds(image: RasterView, channel: int, pixels: int)
    requires
        0 <= pixels,
    ensures
        0 <= channel_sum(image, channel, pixels) <= SAMPLE_MAX * pixels,
        0 <= exact_sum(image, channel, pixels) <= 765 * pixels,
        0 <= exact_sum(image, channel, pixels) <= SAMPLE_MAX * deviation_parts(channel) * pixels,
        0 <= square_sum(image, channel, pixels) <= 765 * 765 * pixels,
    decreases pixels,
{
    if pixels > 0 {
        lemma_sums_bounds(image, channel, pixels - 1);
        let value = exact_value(image, pixels - 1, channel);
        assert(0 <= value * value <= 765 * 765) by (nonlinear_arith)
            requires
                0 <= value <= 765,
        ;
    }
}

/// The squares of `n * t - p * sum` over the exact values `t` of the first
/// `pixels` pixels.
spec fn centred_square_sum(image: RasterView, channel: int, n: int, sum: int, pixels: int) -> int
    decreases pixels,
{
    if pixels <= 0 {
        0
    } else {
        let d = n * exact_value(image, pixels - 1, channel) - deviation_parts(channel) * sum;
        centred_square_sum(image, channel, n, sum, pixels - 1) + d * d
    }
}

proof fn lemma_centred_expands(image: RasterView, channel: int, n: int, sum: int, pixels: int)
    requires
        0 <= pixels,
    ensures
        centred_square_sum(image, channel, n, sum, pixels) == (n * n) * square_sum(
            image,
            channel,
            pixels,
        ) - 2 * ((n * (deviation_parts(channel) * sum)) * exact_sum(image, channel, pixels))
            + pixels * ((deviation_parts(channel) * sum) * (deviation_parts(channel) * sum)),
    decreases pixels,
{
    let y = deviation_parts(channel) * sum;
    let a = n * n;
    let b = n * y;
    let c = y * y;
    if pixels > 0 {
        lemma_centred_expands(image, channel, n, sum, pixels - 1);
        let q = square_sum(image, channel, pixels - 1);
        let e = exact_sum(image, channel, pixels - 1);
        let t = exact_value(image, pixels - 1, channel);
        let x = n * t;
        let d = x - y;
        assert(d * d == x * x - 2 * (x * y) + y * y) by (nonlinear_arith)
            requires
                d == x - y,
        ;
        assert(x * x == a * (t * t)) by (nonlinear_arith)
            requires
                x == n * t,
                a == n * n,
        ;
        assert(x * y == b * t) by (nonlinear_arith)
            requires
                x == n * t,
                b == n * y,
        ;
        assert(a * (q + t * t) == a * q + a * (t * t)) by (nonlinear_arith);
        assert(b * (e + t) == b * e + b * t) by (nonlinear_arith);
        assert(pixels * c == (pixels - 1) * c + c) by (nonlinear_arith);
    } else {
        assert(a * 0 == 0 && b * 0 == 0 && 0 * c == 0) by (nonlinear_arith);
    }
}

proof fn lemma_centred_bounds(image: RasterView, channel: int, n: int, sum: int, pixels: int)
    requires
        0 <= pixels,
        0 <= n,
        0 <= sum <= SAMPLE_MAX * n,
    ensures
        0 <= centred_square_sum(image, channel, n, sum, pixels) <= pixels * ((255
            * deviation_parts(channel) * n) * (255 * deviation_parts(channel) * n)),
    decreases pixels,
{
    let p = deviation_parts(channel);
    let bound = 255 * p * n;
    if pixels > 0 {
        lemma_centred_bounds(image, channel, n, sum, pixels - 1);
        let t = exact_value(image, pixels - 1, channel);
        let d = n * t - p * sum;
        assert(0 <= t <= 255 * p);
        assert(-bound <= d <= bound) by (nonlinear_arith)
            requires
                d == n * t - p * sum,
                bound == 255 * p * n,
                0 <= t <= 255 * p,
                0 <= sum <= 255 * n,
                0 <= n,
                1 <= p <= 3,
        ;
        assert(0 <= d * d <= bound * bound) by (nonlinear_arith)
            requires
                -bound <= d <= bound,
        ;
        assert(pixels * (bound * bound) == (pixels - 1) * (bound * bound) + bound * bound)
            by (nonlinear_arith);
    } else {
        assert(pixels * (bound * bound) == 0) by (nonlinear_arith)
            requires
                pixels == 0,
        ;
    }
}

/// On any image with a pixel, brightness and contrast of every measured
/// channel lie between zero and one: the sum that brightness is the mean of
/// is at most [`SAMPLE_MAX`] for each pixel, and [`spread`], whose root
/// contrast is, lies between zero and the square of [`SAMPLE_MAX`] times the
/// number of pixels and of parts.
pub proof fn lemma_brightness_and_contrast_within_unit(image: RasterView, channel: int)
    requires
        image.pixels() > 0,
        0 <= channel < MEASURED_CHANNELS,
    ensures
        0 <= channel_sum(image, channel, image.pixels() as int) <= SAMPLE_MAX * image.pixels(),
        0 <= spread(image, channel) <= (SAMPLE_MAX * deviation_parts(channel) * image.pixels()) * (
        SAMPLE_MAX * deviation_parts(channel) * image.pixels()),
{
    let n = image.pixels() as int;
    let p = deviation_parts(channel);
    let sum = channel_sum(image, channel, n);
    lemma_sums_bounds(image, channel, n);
    lemma_centred_expands(image, channel, n, sum, n);
    lemma_centred_bounds(image, channel, n, sum, n);
    let centred = centred_square_sum(image, channel, n, sum, n);
    let q = square_sum(image, channel, n);
    let e = exact_sum(image, channel, n);
    let y = p * sum;
    let bound = 255 * p * n;
    let s = spread(image, channel);
    assert(n * s == n * (n * q) - 2 * (n * (y * e)) + n * (y * y)) by (nonlinear_arith)
        requires
            s == n * q - 2 * (y * e) + y * y,
    ;
    assert(n * (n * q) == (n * n) * q) by (nonlinear_arith);
    assert(n * (y * e) == (n * y) * e) by (nonlinear_arith);
    assert(centred == n * s);
    assert(0 <= s <= bound * bound) by (nonlinear_arith)
        requires
            0 <= n * s <= n * (bound * bound),
            n > 0,
    ;
}

/// Measures brightness and contrast of an image, channel by channel.
#[derive(Debug, Clone, Copy)]
pub struct BrightnessAndContrastFeatureExtractor;

impl BrightnessAndContrastFeatureExtractor {
    fn exact_value_at(image: &Raster, pixel: usize, channel: usize) -> (value: u128)
        requires
            pixel < image@.pixels(),
            channel < MEASURED_CHANNELS,
        ensures
            value == exact_value(image@, pixel as int, channel as int),
            value <= 765,
    {
        if channel < 3 {
            image.sample(pixel, channel) as u128
        } else {
            image.sample(pixel, 0) as u128 + image.sample(pixel, 1) as u128 + image.sample(
                pixel,
                2,
            ) as u128
        }
    }

    /// Sums up one channel: what its brightness is the mean of, its exact
    /// values, and their squares.
    pub fn measure_channel(image: &Raster, channel: usize) -> (statistics: ChannelStatistics)
        requires
            channel < MEASURED_CHANNELS,
        ensures
            statistics.measures(image@, channel as int),
    {
        let pixels = image.pixel_count();
        let mut sum: u128 = 0;
        let mut exact: u128 = 0;
        let mut squares: u128 = 0;
        let mut pixel: usize = 0;
        while pixel < pixels
            invariant
                pixel <= pixels,
                pixels == image@.pixels(),
                channel < MEASURED_CHANNELS,
                sum == channel_sum(image@, channel as int, pixel as int),
                exact == exact_sum(image@, channel as int, pixel as int),
                squares == square_sum(image@, channel as int, pixel as int),
            decreases pixels - pixel,
        {
            proof {
                lemma_sums_bounds(image@, channel as int, pixel as int);
            }
            let value = Self::exact_value_at(image, pixel, channel);
            assert(value * value <= 765 * 765) by (nonlinear_arith)
                requires
                    value <= 765,
            ;
            assert(squares <= 585225 * pixel);
            sum = sum + if channel < 3 {
                value
            } else {
                value / 3
            };
            exact = exact + value;
            squares = squares + value * value;
            pixel += 1;
        }
        ChannelStatistics {
            parts: if channel < 3 {
                1
            } else {
                3
            },
            sum,
            exact_sum: exact,
            square_sum: squares,
        }
    }

    /// Sums up the four channels of an image.
    pub fn extract(&self, image: &Raster) -> (statistics: BrightnessAndContrastStatistics)
        ensures
            statistics.pixels == image@.pixels(),
            statistics.red.measures(image@, 0),
            statistics.green.measures(image@, 1),
            statistics.blue.measures(image@, 2),
            statistics.average.measures(image@, 3),
    {
        BrightnessAndContrastStatistics {
            pixels: image.pixel_count(),
            red: Self::measure_channel(image, 0),
            green: Self::measure_channel(image, 1),
            blue: Self::measure_channel(image, 2),
            average: Self::measure_channel(image, 3),
        }
    }
}

/// Brightness and contrast of an image on the four measured channels, each
/// as the text of its value.
#[derive(Debug)]
pub struct BrightnessAndContrastFeature {
    pub brightness: [String; 4],
    pub contrast: [String; 4],
}

impl CsvRecordProvider for BrightnessAndContrastFeature {
    open spec fn header_cells(&self) -> Seq<Seq<char>> {
        seq![
            "brightness_r"@,
            "brightness_g"@,
            "brightness_b"@,
            "brightness_avg"@,
            "contrast_r"@,
            "contrast_g"@,
            "contrast_b"@,
            "contrast_avg"@,
        ]
    }

    open spec fn value_cells(&self) -> Seq<Seq<char>> {
        seq![
            self.brightness@[0]@,
            self.brightness@[1]@,
            self.brightness@[2]@,
            self.brightness@[3]@,
            self.contrast@[0]@,
            self.contrast@[1]@,
            self.contrast@[2]@,
            self.contrast@[3]@,
        ]
    }

    fn headers(&self) -> (names: Vec<String>) {
        let mut names: Vec<String> = Vec::new();
        names.push(String::from_str("brightness_r"));
        names.push(String::from_str("brightness_g"));
        names.push(String::from_str("brightness_b"));
        names.push(String::from_str("brightness_avg"));
        names.push(String::from_str("contrast_r"));
        names.push(String::from_str("contrast_g"));
        names.push(String::from_str("contrast_b"));
        names.push(String::from_str("contrast_avg"));
        assert(cells_of(names@) =~= self.header_cells());
        names
    }

    fn values(&self) -> (texts: Vec<String>) {
        let mut texts: Vec<String> = Vec::new();
        texts.push(self.brightness[0].clone());
        texts.push(self.brightness[1].clone());
        texts.push(self.brightness[2].clone());
        texts.push(self.brightness[3].clone());
        texts.push(self.contrast[0].clone());
        texts.push(self.contrast[1].clone());
        texts.push(self.contrast[2].clone());
        texts.push(self.contrast[3].clone());
        assert(cells_of(texts@) =~= self.value_cells());
        texts
    }
}

} // verus!
