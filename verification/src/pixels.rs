use vstd::prelude::*;
use vstd::arithmetic::div_mod::lemma_fundamental_div_mod_converse;
use crate::error::KMeansError;
use crate::matrix::{can_hold, fits, Matrix, ONE};

verus! {

/// A colour of three eight-bit channels.
#[derive(Debug, Clone, Copy, PartialEq, Eq, Structural)]
pub struct Rgb {
    pub red: u8,
    pub green: u8,
    pub blue: u8,
}

/// The channel value that a fixed-point number stands for: its whole part,
/// held to the range of a channel.
pub open spec fn channel_of(value: int) -> int {
    if value < 0 {
        0
    } else if value / (ONE as int) > 255 {
        255
    } else {
        value / (ONE as int)
    }
}

/// The feature row of the pixel in column `x` and line `y` of an image of
/// `height` lines: rows run down each column in turn.
pub open spec fn row_at(x: int, y: int, height: int) -> int {
    x * height + y
}

/// The pixel that a feature row stands for.
pub open spec fn pixel_at(row: int, height: int) -> (int, int) {
    (row / height, row % height)
}

/// A channel value as a fixed-point number.
pub fn channel_to_fixed(channel: u8) -> (value: i32)
    ensures
        value == channel * ONE,
        channel_of(value as int) == channel,
{
    let value: i32 = (channel as i32) * ONE;
    proof {
        lemma_fundamental_div_mod_converse(value as int, ONE as int, channel as int, 0);
    }
    value
}

/// The channel value that a fixed-point number stands for; numbers below
/// zero give 0, numbers of 256 and more give 255.
pub fn fixed_to_channel(value: i32) -> (channel: u8)
    ensures
        channel == channel_of(value as int),
{
    if value < 0 {
        0
    } else if value >= 256 * ONE {
        255
    } else {
        (value / ONE) as u8
    }
}

/// The feature row of the pixel in column `x` and line `y`, where the line
/// exists and the row index fits in a `usize`.
pub fn row_of_pixel(x: u32, y: u32, height: u32) -> (row: Option<usize>)
    ensures
        row.is_some() <==> y < height && row_at(x as int, y as int, height as int) <= usize::MAX,
        row.is_some() ==> row.unwrap() == row_at(x as int, y as int, height as int),
{
    if y >= height {
        return None;
    }
    assert(x * height <= 0xFFFF_FFFF * 0xFFFF_FFFF) by (nonlinear_arith)
        requires
            0 <= x <= 0xFFFF_FFFF,
            0 <= height <= 0xFFFF_FFFF,
    ;
    let wide: u64 = (x as u64) * (height as u64) + (y as u64);
    if wide > usize::MAX as u64 {
        None
    } else {
        Some(wide as usize)
    }
}

/// The column and line of the pixel that a feature row stands for, where
/// the image has lines and the column fits in a `u32`.
pub fn pixel_of_row(row: usize, height: u32) -> (pixel: Option<(u32, u32)>)
    ensures
        pixel.is_some() <==> height > 0 && row as int / height as int <= u32::MAX,
        pixel.is_some() ==> (pixel.unwrap().0 as int, pixel.unwrap().1 as int) == pixel_at(
            row as int,
            height as int,
        ),
{
    if height == 0 {
        return None;
    }
    let column: u64 = (row as u64) / (height as u64);
    let line: u64 = (row as u64) % (height as u64);
    if column > u32::MAX as u64 {
        None
    } else {
        Some((column as u32, line as u32))
    }
}

/// Going from a pixel to its feature row and back gives the pixel again.
pub proof fn lemma_pixel_round_trip(x: int, y: int, height: int)
    requires
        0 <= y < height,
    ensures
        pixel_at(row_at(x, y, height), height) == (x, y),
{
    lemma_fundamental_div_mod_converse(x * height + y, height, x, y);
}

/// The feature row of a colour: its three channels as fixed-point numbers.
pub open spec fn feature_of(colour: Rgb) -> Seq<i32> {
    seq![(colour.red * ONE) as i32, (colour.green * ONE) as i32, (colour.blue * ONE) as i32]
}

/// The feature matrix of a list of colours: one row of three coordinates
/// for each colour, in order.
pub fn features_of(colours: &Vec<Rgb>) -> (out: Result<Matrix, KMeansError>)
    ensures
        out.is_ok() <==> fits(colours@.len(), 3),
        out.is_err() ==> out == Err::<Matrix, KMeansError>(KMeansError::TooLarge),
        out.is_ok() ==> out.unwrap().wf() && out.unwrap().rows() == colours@.len()
            && out.unwrap().cols() == 3 && forall|r: int|
            0 <= r < colours@.len() ==> (#[trigger] out.unwrap()@[r]) == feature_of(colours@[r]),
{
    let rows = colours.len();
    if !can_hold(rows, 3) {
        return Err(KMeansError::TooLarge);
    }
    let mut features = Matrix::raw_zeros(rows, 3);
    let mut r: usize = 0;
    while r < rows
        invariant
            rows == colours@.len(),
            features.wf(),
            features.rows() == rows,
            features.cols() == 3,
            0 <= r <= rows,
            forall|h: int| 0 <= h < r ==> (#[trigger] features@[h]) == feature_of(colours@[h]),
        decreases rows - r,
    {
        let colour = colours[r];
        features.raw_set(r, 0, channel_to_fixed(colour.red));
        features.raw_set(r, 1, channel_to_fixed(colour.green));
        features.raw_set(r, 2, channel_to_fixed(colour.blue));
        assert(features@[r as int] =~= feature_of(colours@[r as int]));
        r = r + 1;
    }
    Ok(features)
}

/// The colour of centroid `k`: its first three coordinates as channels.
pub open spec fn colour_of(centroids: Seq<Seq<i32>>, k: int) -> Rgb {
    Rgb {
        red: channel_of(centroids[0][k] as int) as u8,
        green: channel_of(centroids[1][k] as int) as u8,
        blue: channel_of(centroids[2][k] as int) as u8,
    }
}

/// The colour of every centroid, in order. A centroid matrix of fewer than
/// three coordinates holds no colours and is refused.
pub fn palette(centroids: &Matrix) -> (out: Result<Vec<Rgb>, KMeansError>)
    ensures
        out.is_ok() <==> centroids.rows() >= 3,
        out.is_err() ==> out == Err::<Vec<Rgb>, KMeansError>(KMeansError::InvalidArgument),
        out.is_ok() ==> out.unwrap()@.len() == centroids.cols() && forall|k: int|
            0 <= k < centroids.cols() ==> (#[trigger] out.unwrap()@[k]) == colour_of(centroids@, k),
{
    let (dims, count) = centroids.shape();
    if dims < 3 {
        return Err(KMeansError::InvalidArgument);
    }
    let mut colours: Vec<Rgb> = Vec::new();
    let mut k: usize = 0;
    while k < count
        invariant
            centroids.wf(),
            centroids.rows() == dims,
            centroids.cols() == count,
            dims >= 3,
            0 <= k <= count,
            colours@.len() == k,
            forall|c: int| 0 <= c < k ==> (#[trigger] colours@[c]) == colour_of(centroids@, c),
        decreases count - k,
    {
        let colour = Rgb {
            red: fixed_to_channel(centroids.raw_get(0, k)),
            green: fixed_to_channel(centroids.raw_get(1, k)),
            blue: fixed_to_channel(centroids.raw_get(2, k)),
        };
        colours.push(colour);
        k = k + 1;
    }
    Ok(colours)
}

} // verus!
