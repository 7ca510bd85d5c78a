//! Sines and cosines of whole degrees in fixed point, and the extent of a
//! rectangle that is turned about its centre.

use vstd::prelude::*;

verus! {

/// The value that stands for `1.0` in the sine table.
pub const TRIG_SCALE: i64 = 1_000_000_000;

/// `sin(d)` for `d` whole degrees of the first quadrant, times [`TRIG_SCALE`]
/// and rounded to the nearest integer.
#[verifier::opaque]
pub open spec fn sin_quadrant(d: int) -> int {
    if d == 0 {
        0
    } else if d == 1 {
        17452406
    } else if d == 2 {
        34899497
    } else if d == 3 {
        52335956
    } else if d == 4 {
        69756474
    } else if d == 5 {
        87155743
    } else if d == 6 {
        104528463
    } else if d == 7 {
        121869343
    } else if d == 8 {
        139173101
    } else if d == 9 {
        156434465
    } else if d == 10 {
        173648178
    } else if d == 11 {
        190808995
    } else if d == 12 {
        207911691
    } else if d == 13 {
        224951054
    } else if d == 14 {
        241921896
    } else if d == 15 {
        258819045
    } else if d == 16 {
        275637356
    } else if d == 17 {
        292371705
    } else if d == 18 {
        309016994
    } else if d == 19 {
        325568154
    } else if d == 20 {
        342020143
    } else if d == 21 {
        358367950
    } else if d == 22 {
        374606593
    } else if d == 23 {
        390731128
    } else if d == 24 {
        406736643
    } else if d == 25 {
        422618262
    } else if d == 26 {
        438371147
    } else if d == 27 {
        453990500
    } else if d == 28 {
        469471563
    } else if d == 29 {
        484809620
    } else if d == 30 {
        500000000
    } else if d == 31 {
        515038075
    } else if d == 32 {
        529919264
    } else if d == 33 {
        544639035
    } else if d == 34 {
        559192903
    } else if d == 35 {
        573576436
    } else if d == 36 {
        587785252
    } else if d == 37 {
        601815023
    } else if d == 38 {
        615661475
    } else if d == 39 {
        629320391
    } else if d == 40 {
        642787610
    } else if d == 41 {
        656059029
    } else if d == 42 {
        669130606
    } else if d == 43 {
        681998360
    } else if d == 44 {
        694658370
    } else if d == 45 {
        707106781
    } else if d == 46 {
        719339800
    } else if d == 47 {
        731353702
    } else if d == 48 {
        743144825
    } else if d == 49 {
        754709580
    } else if d == 50 {
        766044443
    } else if d == 51 {
        777145961
    } else if d == 52 {
        788010754
    } else if d == 53 {
        798635510
    } else if d == 54 {
        809016994
    } else if d == 55 {
        819152044
    } else if d == 56 {
        829037573
    } else if d == 57 {
        838670568
    } else if d == 58 {
        848048096
    } else if d == 59 {
        857167301
    } else if d == 60 {
        866025404
    } else if d == 61 {
        874619707
    } else if d == 62 {
        882947593
    } else if d == 63 {
        891006524
    } else if d == 64 {
        898794046
    } else if d == 65 {
        906307787
    } else if d == 66 {
        913545458
    } else if d == 67 {
        920504853
    } else if d == 68 {
        927183855
    } else if d == 69 {
        933580426
    } else if d == 70 {
        939692621
    } else if d == 71 {
        945518576
    } else if d == 72 {
        951056516
    } else if d == 73 {
        956304756
    } else if d == 74 {
        961261696
    } else if d == 75 {
        965925826
    } else if d == 76 {
        970295726
    } else if d == 77 {
        974370065
    } else if d == 78 {
        978147601
    } else if d == 79 {
        981627183
    } else if d == 80 {
        984807753
    } else if d == 81 {
        987688341
    } else if d == 82 {
        990268069
    } else if d == 83 {
        992546152
    } else if d == 84 {
        994521895
    } else if d == 85 {
        996194698
    } else if d == 86 {
        997564050
    } else if d == 87 {
        998629535
    } else if d == 88 {
        999390827
    } else if d == 89 {
        999847695
    } else {
        1_000_000_000
    }
}

/// The angle of the first quadrant whose sine is `|sin(t)|`, in degrees.
pub open spec fn folded(t: int) -> int {
    let m = t % 180;
    if m <= 90 {
        m
    } else {
        180 - m
    }
}

/// `|sin(t)|` for `t` whole degrees, in fixed point.
pub open spec fn abs_sin(t: int) -> int {
    sin_quadrant(folded(t))
}

/// `|cos(t)|` for `t` whole degrees, in fixed point.
pub open spec fn abs_cos(t: int) -> int {
    sin_quadrant(90 - folded(t))
}

/// `sin(t)` for `t` whole degrees, in fixed point.
pub open spec fn sin_signed(t: int) -> int {
    if t % 360 < 180 {
        abs_sin(t)
    } else {
        -abs_sin(t)
    }
}

/// `cos(t)` for `t` whole degrees, in fixed point.
pub open spec fn cos_signed(t: int) -> int {
    if t % 360 <= 90 || t % 360 >= 270 {
        abs_cos(t)
    } else {
        -abs_cos(t)
    }
}

/// Magnitude of an integer.
pub open spec fn magnitude(v: int) -> int {
    if v < 0 {
        -v
    } else {
        v
    }
}

/// Width and height of the smallest axis-aligned rectangle around a
/// rectangle of the given size turned by `t` degrees about its centre:
/// `|w cos t| + |h sin t|` by `|w sin t| + |h cos t|`, rounded down.
pub open spec fn turned_extent(size: (i32, i32), t: int) -> (int, int) {
    let w = magnitude(size.0 as int);
    let h = magnitude(size.1 as int);
    (
        (w * abs_cos(t) + h * abs_sin(t)) / (TRIG_SCALE as int),
        (w * abs_sin(t) + h * abs_cos(t)) / (TRIG_SCALE as int),
    )
}

/// The table entry for an angle of the first quadrant.
pub fn sin_of_quadrant(d: i64) -> (s: i64)
    requires
        0 <= d <= 90,
    ensures
        s == sin_quadrant(d as int),
        0 <= s <= TRIG_SCALE,
{
    reveal(sin_quadrant);
    match d {
        0 => 0,
        1 => 17452406,
        2 => 34899497,
        3 => 52335956,
        4 => 69756474,
        5 => 87155743,
        6 => 104528463,
        7 => 121869343,
        8 => 139173101,
        9 => 156434465,
        10 => 173648178,
        11 => 190808995,
        12 => 207911691,
        13 => 224951054,
        14 => 241921896,
        15 => 258819045,
        16 => 275637356,
        17 => 292371705,
        18 => 309016994,
        19 => 325568154,
        20 => 342020143,
        21 => 358367950,
        22 => 374606593,
        23 => 390731128,
        24 => 406736643,
        25 => 422618262,
        26 => 438371147,
        27 => 453990500,
        28 => 469471563,
        29 => 484809620,
        30 => 500000000,
        31 => 515038075,
        32 => 529919264,
        33 => 544639035,
        34 => 559192903,
        35 => 573576436,
        36 => 587785252,
        37 => 601815023,
        38 => 615661475,
        39 => 629320391,
        40 => 642787610,
        41 => 656059029,
        42 => 669130606,
        43 => 681998360,
        44 => 694658370,
        45 => 707106781,
        46 => 719339800,
        47 => 731353702,
        48 => 743144825,
        49 => 754709580,
        50 => 766044443,
        51 => 777145961,
        52 => 788010754,
        53 => 798635510,
        54 => 809016994,
        55 => 819152044,
        56 => 829037573,
        57 => 838670568,
        58 => 848048096,
        59 => 857167301,
        60 => 866025404,
        61 => 874619707,
        62 => 882947593,
        63 => 891006524,
        64 => 898794046,
        65 => 906307787,
        66 => 913545458,
        67 => 920504853,
        68 => 927183855,
        69 => 933580426,
        70 => 939692621,
        71 => 945518576,
        72 => 951056516,
        73 => 956304756,
        74 => 961261696,
        75 => 965925826,
        76 => 970295726,
        77 => 974370065,
        78 => 978147601,
        79 => 981627183,
        80 => 984807753,
        81 => 987688341,
        82 => 990268069,
        83 => 992546152,
        84 => 994521895,
        85 => 996194698,
        86 => 997564050,
        87 => 998629535,
        88 => 999390827,
        89 => 999847695,
        _ => 1_000_000_000,
    }
}

/// Folds a heading into the first quadrant.
pub fn fold_heading(t: i32) -> (d: i64)
    ensures
        d == folded(t as int),
        0 <= d <= 90,
{
    let wide: i64 = t as i64;
    let m: i64 = if wide >= 0 {
        wide % 180
    } else {
        let back: i64 = (-wide) % 180;
        if back == 0 {
            0
        } else {
            180 - back
        }
    };
    if m <= 90 {
        m
    } else {
        180 - m
    }
}

/// Computes [`cos_signed`] and [`sin_signed`].
pub fn cos_sin_at(t: i32) -> (cs: (i64, i64))
    ensures
        cs.0 == cos_signed(t as int),
        cs.1 == sin_signed(t as int),
        -TRIG_SCALE <= cs.0 <= TRIG_SCALE,
        -TRIG_SCALE <= cs.1 <= TRIG_SCALE,
{
    let d = fold_heading(t);
    let s = sin_of_quadrant(d);
    let c = sin_of_quadrant(90 - d);
    let wide: i64 = t as i64;
    let m: i64 = if wide >= 0 {
        wide % 360
    } else {
        let back: i64 = (-wide) % 360;
        if back == 0 {
            0
        } else {
            360 - back
        }
    };
    (if m <= 90 || m >= 270 { c } else { -c }, if m < 180 { s } else { -s })
}

/// Computes [`turned_extent`].
pub fn extent_at(size: (i32, i32), t: i32) -> (e: (i64, i64))
    ensures
        e.0 == turned_extent(size, t as int).0,
        e.1 == turned_extent(size, t as int).1,
        0 <= e.0 <= magnitude(size.0 as int) + magnitude(size.1 as int),
        0 <= e.1 <= magnitude(size.0 as int) + magnitude(size.1 as int),
{
    let w: i64 = if size.0 < 0 { -(size.0 as i64) } else { size.0 as i64 };
    let h: i64 = if size.1 < 0 { -(size.1 as i64) } else { size.1 as i64 };
    let d = fold_heading(t);
    let s = sin_of_quadrant(d);
    let c = sin_of_quadrant(90 - d);
    proof {
        lemma_scaled_product(w as int, c as int);
        lemma_scaled_product(h as int, s as int);
        lemma_scaled_product(w as int, s as int);
        lemma_scaled_product(h as int, c as int);
    }
    let bw = (w * c + h * s) / TRIG_SCALE;
    let bh = (w * s + h * c) / TRIG_SCALE;
    (bw, bh)
}

/// Neither extent of a turned rectangle is negative.
pub proof fn lemma_extent_bounds(size: (i32, i32), t: int)
    ensures
        turned_extent(size, t).0 >= 0,
        turned_extent(size, t).1 >= 0,
{
    reveal(sin_quadrant);
    let w = magnitude(size.0 as int);
    let h = magnitude(size.1 as int);
    let s = abs_sin(t);
    let c = abs_cos(t);
    lemma_scaled_product(w, c);
    lemma_scaled_product(h, s);
    lemma_scaled_product(w, s);
    lemma_scaled_product(h, c);
}

/// A length times a table entry stays within the length times the scale.
pub proof fn lemma_scaled_product(len: int, entry: int)
    requires
        0 <= len,
        0 <= entry <= TRIG_SCALE,
    ensures
        0 <= len * entry <= len * TRIG_SCALE,
{
    assert(0 <= len * entry <= len * TRIG_SCALE) by (nonlinear_arith)
        requires
            0 <= len,
            0 <= entry <= TRIG_SCALE,
    ;
}

} // verus!
