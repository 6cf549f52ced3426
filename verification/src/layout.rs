//! Layout descriptions: parsing the textual format
//!
//! ```text
//! center: (x, y)
//! density: d
//! --segments--
//! (x0, y0) --> (x1, y1) --> (x2, y2)
//! ```
//!
//! into a [`Layout`], and sampling a layout into its point list. Whitespace
//! and line breaks around tokens carry no meaning. Numbers are decimal with at
//! most seven integer digits and at most three fraction digits, read exactly
//! into fixed-point sub-units. A chain whose last vertex equals its first
//! describes a loop. The grammar is stated as spec functions over the byte
//! sequence of the input; the executable parser returns exactly what they
//! describe.
use crate::geometry::{
    coord_ok, in_bounds, lerp_spec, seg_samples, lerp_point, seg_sample_count, Vec2i, MAX_DENSITY,
};
use vstd::prelude::*;
use vstd::string::StringSliceAdditionalSpecFns;

verus! {

/// Why a layout description was rejected.
#[derive(Clone, Copy, PartialEq, Eq, Structural, Debug)]
pub enum LayoutParseError {
    /// The text does not follow the grammar, or a coordinate lies outside the
    /// accepted range.
    Malformed,
    /// The density is zero, negative, or above the accepted maximum.
    BadDensity,
    /// The segment section holds fewer than two vertices, so it describes no
    /// segment.
    EmptySegments,
    /// Sampling the segments would produce more points than the library
    /// accepts.
    TooManyPoints,
}

/// A parsed layout description: declared center, density (fixed-point
/// sub-units per point-per-unit), and the chain of segment vertices.
#[derive(Debug)]
pub struct Layout {
    pub center: Vec2i,
    pub density: i64,
    pub vertices: Vec<Vec2i>,
}

impl Layout {
    /// A structurally valid layout: bounded coordinates, a positive bounded
    /// density, and at least one segment.
    pub open spec fn wf(self) -> bool {
        &&& in_bounds(self.center)
        &&& 0 < self.density <= MAX_DENSITY
        &&& self.vertices@.len() >= 2
        &&& forall|k: int| 0 <= k < self.vertices@.len() ==> in_bounds(#[trigger] self.vertices@[k])
    }

    /// The chain closes back on its first vertex.
    pub open spec fn spec_closed(self) -> bool {
        closed_chain(self.vertices@)
    }

    /// Whether the chain closes back on its first vertex.
    pub fn is_closed(&self) -> (r: bool)
        requires
            self.vertices@.len() >= 2,
        ensures
            r == self.spec_closed(),
    {
        let n = self.vertices.len();
        self.vertices[0] == self.vertices[n - 1]
    }
}

/// The chain's last vertex returns to its first.
pub open spec fn closed_chain(vs: Seq<Vec2i>) -> bool {
    vs.len() >= 2 && vs[0] == vs[vs.len() - 1]
}

/// Space, tab, carriage return or line feed.
pub open spec fn is_ws(c: u8) -> bool {
    c == 32 || c == 9 || c == 10 || c == 13
}

/// An ASCII decimal digit.
pub open spec fn is_digit(c: u8) -> bool {
    48 <= c <= 57
}

/// First index at or after `i` holding a non-whitespace byte.
pub open spec fn skip_ws_s(s: Seq<u8>, i: int) -> int
    decreases s.len() - i,
{
    if 0 <= i < s.len() && is_ws(s[i]) {
        skip_ws_s(s, i + 1)
    } else {
        i
    }
}

/// First index at or after `i` holding a non-digit byte.
pub open spec fn scan_digits_s(s: Seq<u8>, i: int) -> int
    decreases s.len() - i,
{
    if 0 <= i < s.len() && is_digit(s[i]) {
        scan_digits_s(s, i + 1)
    } else {
        i
    }
}

/// Value of the digit run `s[i..j]`.
pub open spec fn digits_val_s(s: Seq<u8>, i: int, j: int) -> int
    decreases j - i,
{
    if i < j {
        digits_val_s(s, i, j - 1) * 10 + (s[j - 1] - 48)
    } else {
        0
    }
}

/// The literal `-->` starts at `i`.
pub open spec fn at_arrow(s: Seq<u8>, i: int) -> bool {
    i + 3 <= s.len() && s[i] == 45 && s[i + 1] == 45 && s[i + 2] == 62
}

/// The literal `center:` starts at `i`.
pub open spec fn at_center_key(s: Seq<u8>, i: int) -> bool {
    i + 7 <= s.len() && s[i] == 99 && s[i + 1] == 101 && s[i + 2] == 110 && s[i + 3] == 116 && s[i
        + 4] == 101 && s[i + 5] == 114 && s[i + 6] == 58
}

/// The literal `density:` starts at `i`.
pub open spec fn at_density_key(s: Seq<u8>, i: int) -> bool {
    i + 8 <= s.len() && s[i] == 100 && s[i + 1] == 101 && s[i + 2] == 110 && s[i + 3] == 115 && s[i
        + 4] == 105 && s[i + 5] == 116 && s[i + 6] == 121 && s[i + 7] == 58
}

/// The literal `--segments--` starts at `i`.
pub open spec fn at_segments_marker(s: Seq<u8>, i: int) -> bool {
    i + 12 <= s.len() && s[i] == 45 && s[i + 1] == 45 && s[i + 2] == 115 && s[i + 3] == 101 && s[i
        + 4] == 103 && s[i + 5] == 109 && s[i + 6] == 101 && s[i + 7] == 110 && s[i + 8] == 116
        && s[i + 9] == 115 && s[i + 10] == 45 && s[i + 11] == 45
}

/// Scale factor completing `f` fraction digits to three.
pub open spec fn frac_scale(f: int) -> int {
    if f == 1 {
        100
    } else if f == 2 {
        10
    } else {
        1
    }
}

/// Parse an optionally signed decimal number starting exactly at `i` into
/// fixed-point sub-units; yields the value and the index after the last
/// digit. At most seven integer digits and three fraction digits.
pub open spec fn parse_num_s(s: Seq<u8>, i: int) -> Option<(int, int)> {
    let neg = 0 <= i < s.len() && s[i] == 45;
    let i1 = if neg {
        i + 1
    } else {
        i
    };
    let j = scan_digits_s(s, i1);
    if j == i1 || j - i1 > 7 {
        None
    } else {
        let ip = digits_val_s(s, i1, j) * 1000;
        if j < s.len() && s[j] == 46 {
            let k = scan_digits_s(s, j + 1);
            if k == j + 1 || k - (j + 1) > 3 {
                None
            } else {
                let v = ip + digits_val_s(s, j + 1, k) * frac_scale(k - (j + 1));
                Some(
                    (
                        if neg {
                            -v
                        } else {
                            v
                        },
                        k,
                    ),
                )
            }
        } else {
            Some(
                (
                    if neg {
                        -ip
                    } else {
                        ip
                    },
                    j,
                ),
            )
        }
    }
}

/// Parse `( x , y )` (leading whitespace allowed before every token); yields
/// the point and the index after the closing parenthesis. Out-of-range
/// coordinates are rejected.
pub open spec fn parse_vec2_s(s: Seq<u8>, i: int) -> Option<(Vec2i, int)> {
    let i0 = skip_ws_s(s, i);
    if i0 < s.len() && s[i0] == 40 {
        match parse_num_s(s, skip_ws_s(s, i0 + 1)) {
            Some((x, i2)) => {
                let i3 = skip_ws_s(s, i2);
                if i3 < s.len() && s[i3] == 44 {
                    match parse_num_s(s, skip_ws_s(s, i3 + 1)) {
                        Some((y, i5)) => {
                            let i6 = skip_ws_s(s, i5);
                            if i6 < s.len() && s[i6] == 41 && coord_ok(x) && coord_ok(y) {
                                Some((Vec2i::spec_new(x, y), i6 + 1))
                            } else {
                                None
                            }
                        },
                        None => None,
                    }
                } else {
                    None
                }
            },
            None => None,
        }
    } else {
        None
    }
}

/// Skipping whitespace never moves backwards nor past the end.
pub proof fn lemma_skip_ws_bounds(s: Seq<u8>, i: int)
    requires
        0 <= i <= s.len(),
    ensures
        i <= skip_ws_s(s, i) <= s.len(),
    decreases s.len() - i,
{
    if i < s.len() && is_ws(s[i]) {
        lemma_skip_ws_bounds(s, i + 1);
    }
}

/// Scanning digits never moves backwards nor past the end.
pub proof fn lemma_scan_digits_bounds(s: Seq<u8>, i: int)
    requires
        0 <= i <= s.len(),
    ensures
        i <= scan_digits_s(s, i) <= s.len(),
    decreases s.len() - i,
{
    if i < s.len() && is_digit(s[i]) {
        lemma_scan_digits_bounds(s, i + 1);
    }
}

/// A digit run of bounded width has a bounded value.
pub proof fn lemma_digits_val_bound(s: Seq<u8>, i: int, j: int, w: int)
    requires
        0 <= j - i <= w,
        forall|k: int| i <= k < j ==> is_digit(#[trigger] s[k]),
    ensures
        0 <= digits_val_s(s, i, j) < pow10(w),
    decreases j - i,
{
    if i < j {
        lemma_digits_val_bound(s, i, j - 1, w - 1);
        assert(digits_val_s(s, i, j - 1) * 10 <= (pow10(w - 1) - 1) * 10) by (nonlinear_arith)
            requires digits_val_s(s, i, j - 1) <= pow10(w - 1) - 1;
        assert(0 <= digits_val_s(s, i, j - 1) * 10) by (nonlinear_arith)
            requires 0 <= digits_val_s(s, i, j - 1);
    } else {
        lemma_pow10_pos(w);
    }
}

/// Ten to the `w`-th power (zero below zero width).
pub open spec fn pow10(w: int) -> int
    decreases w,
{
    if w <= 0 {
        1
    } else {
        10 * pow10(w - 1)
    }
}

/// Powers of ten are positive.
pub proof fn lemma_pow10_pos(w: int)
    ensures
        pow10(w) >= 1,
    decreases w,
{
    if w > 0 {
        lemma_pow10_pos(w - 1);
    }
}

/// Everything a digit scan passed over is a digit.
pub proof fn lemma_scan_digits_all_digits(s: Seq<u8>, i: int)
    requires
        0 <= i <= s.len(),
    ensures
        forall|k: int| i <= k < scan_digits_s(s, i) ==> is_digit(#[trigger] s[k]),
    decreases s.len() - i,
{
    if i < s.len() && is_digit(s[i]) {
        lemma_scan_digits_all_digits(s, i + 1);
    }
}

/// A successfully parsed number ends after where it began and within the
/// input, with a value below ten billion sub-units in magnitude.
pub proof fn lemma_parse_num_bounds(s: Seq<u8>, i: int)
    requires
        0 <= i <= s.len(),
        parse_num_s(s, i) is Some,
    ensures
        i < parse_num_s(s, i)->Some_0.1 <= s.len(),
        -10_000_000_000 < parse_num_s(s, i)->Some_0.0 < 10_000_000_000,
{
    let neg = 0 <= i < s.len() && s[i] == 45;
    let i1 = if neg { i + 1 } else { i };
    lemma_scan_digits_bounds(s, i1);
    lemma_scan_digits_all_digits(s, i1);
    let j = scan_digits_s(s, i1);
    reveal_with_fuel(pow10, 8);
    assert(pow10(7) == 10_000_000);
    if !(j == i1 || j - i1 > 7) {
        lemma_digits_val_bound(s, i1, j, 7);
        let ipd = digits_val_s(s, i1, j);
        assert(0 <= ipd * 1000 <= 9_999_999_000) by (nonlinear_arith)
            requires 0 <= ipd <= 9_999_999;
        if j < s.len() && s[j] == 46 {
            lemma_scan_digits_bounds(s, j + 1);
            lemma_scan_digits_all_digits(s, j + 1);
            let k = scan_digits_s(s, j + 1);
            if !(k == j + 1 || k - (j + 1) > 3) {
                let f = k - (j + 1);
                lemma_digits_val_bound(s, j + 1, k, f);
                let fd = digits_val_s(s, j + 1, k);
                if f == 1 {
                    assert(0 <= fd * frac_scale(f) <= 999) by (nonlinear_arith)
                        requires 0 <= fd <= 9 && frac_scale(f) == 100;
                } else if f == 2 {
                    assert(0 <= fd * frac_scale(f) <= 999) by (nonlinear_arith)
                        requires 0 <= fd <= 99 && frac_scale(f) == 10;
                } else {
                    assert(0 <= fd * frac_scale(f) <= 999) by (nonlinear_arith)
                        requires 0 <= fd <= 999 && frac_scale(f) == 1;
                }
            }
        }
    }
}

/// A successfully parsed point ends after where it began and within the
/// input, with both coordinates in range.
pub proof fn lemma_parse_vec2_bounds(s: Seq<u8>, i: int)
    requires
        0 <= i <= s.len(),
        parse_vec2_s(s, i) is Some,
    ensures
        i < parse_vec2_s(s, i)->Some_0.1 <= s.len(),
        in_bounds(parse_vec2_s(s, i)->Some_0.0),
{
    lemma_skip_ws_bounds(s, i);
    let i0 = skip_ws_s(s, i);
    lemma_skip_ws_bounds(s, i0 + 1);
    lemma_parse_num_bounds(s, skip_ws_s(s, i0 + 1));
    let i2 = parse_num_s(s, skip_ws_s(s, i0 + 1))->Some_0.1;
    lemma_skip_ws_bounds(s, i2);
    let i3 = skip_ws_s(s, i2);
    lemma_skip_ws_bounds(s, i3 + 1);
    lemma_parse_num_bounds(s, skip_ws_s(s, i3 + 1));
    let i5 = parse_num_s(s, skip_ws_s(s, i3 + 1))->Some_0.1;
    lemma_skip_ws_bounds(s, i5);
}

/// Parse the remainder of a vertex chain: a possibly empty run of
/// `--> ( x , y )` groups; yields the vertices and the index after the last
/// group (whitespace before a failed arrow already skipped).
pub open spec fn parse_more_vertices_s(s: Seq<u8>, i: int) -> Option<(Seq<Vec2i>, int)>
    decreases s.len() - i
        when 0 <= i <= s.len()
        via parse_more_vertices_s_decreases
{
    let i0 = skip_ws_s(s, i);
    if at_arrow(s, i0) {
        match parse_vec2_s(s, i0 + 3) {
            Some((v, i2)) => match parse_more_vertices_s(s, i2) {
                Some((rest, e)) => Some((seq![v] + rest, e)),
                None => None,
            },
            None => None,
        }
    } else {
        Some((Seq::empty(), i0))
    }
}

#[via_fn]
proof fn parse_more_vertices_s_decreases(s: Seq<u8>, i: int) {
    lemma_skip_ws_bounds(s, i);
    let i0 = skip_ws_s(s, i);
    if at_arrow(s, i0) {
        if parse_vec2_s(s, i0 + 3) is Some {
            lemma_parse_vec2_bounds(s, i0 + 3);
        }
    }
}

/// Parse a whole layout description; yields center, density and the vertex
/// chain when the entire input follows the grammar.
pub open spec fn parse_layout_s(s: Seq<u8>) -> Option<(Vec2i, int, Seq<Vec2i>)> {
    let h = skip_ws_s(s, 0);
    if at_center_key(s, h) {
        match parse_vec2_s(s, h + 7) {
            Some((c, p1)) => {
                let p2 = skip_ws_s(s, p1);
                if at_density_key(s, p2) {
                    match parse_num_s(s, skip_ws_s(s, p2 + 8)) {
                        Some((d, p3)) => {
                            let p4 = skip_ws_s(s, p3);
                            if at_segments_marker(s, p4) {
                                match parse_vec2_s(s, p4 + 12) {
                                    Some((v0, p5)) => match parse_more_vertices_s(s, p5) {
                                        Some((rest, p6)) => if skip_ws_s(s, p6) == s.len() {
                                            Some((c, d, seq![v0] + rest))
                                        } else {
                                            None
                                        },
                                        None => None,
                                    },
                                    None => None,
                                }
                            } else {
                                None
                            }
                        },
                        None => None,
                    }
                } else {
                    None
                }
            },
            None => None,
        }
    } else {
        None
    }
}

/// The input parses and holds an acceptable density and at least one segment.
pub open spec fn layout_accepted(s: Seq<u8>) -> bool {
    match parse_layout_s(s) {
        Some((c, d, vs)) => 0 < d <= MAX_DENSITY && vs.len() >= 2,
        None => false,
    }
}

/// Largest point list the library will build.
pub const MAX_POINTS: usize = 100_000_000;

/// The points one segment from `a` to `b` contributes, in order: the
/// interpolated samples at fractions `1/n .. n/n`, so the segment's end
/// vertex is included and its start vertex is left to the previous segment
/// (or to the chain head).
pub open spec fn seg_points_s(a: Vec2i, b: Vec2i, d: int) -> Seq<Vec2i> {
    Seq::new(seg_samples(a, b, d) as nat, |j: int| lerp_spec(a, b, j + 1, seg_samples(a, b, d)))
}

/// Vertex flags for one segment's contribution: only its end vertex is a
/// vertex of the chain.
pub open spec fn seg_flags_s(n: int) -> Seq<bool> {
    Seq::new(n as nat, |j: int| j == n - 1)
}

/// All points the segments of the chain contribute, head vertex excluded.
pub open spec fn chain_points_s(vs: Seq<Vec2i>, d: int) -> Seq<Vec2i>
    decreases vs.len(),
{
    if vs.len() < 2 {
        Seq::empty()
    } else {
        chain_points_s(vs.drop_last(), d) + seg_points_s(vs[vs.len() - 2], vs[vs.len() - 1], d)
    }
}

/// Vertex flags matching [`chain_points_s`].
pub open spec fn chain_flags_s(vs: Seq<Vec2i>, d: int) -> Seq<bool>
    decreases vs.len(),
{
    if vs.len() < 2 {
        Seq::empty()
    } else {
        chain_flags_s(vs.drop_last(), d) + seg_flags_s(
            seg_samples(vs[vs.len() - 2], vs[vs.len() - 1], d),
        )
    }
}

/// Sum of the per-segment sample counts of the chain.
pub open spec fn total_samples_s(vs: Seq<Vec2i>, d: int) -> int
    decreases vs.len(),
{
    if vs.len() < 2 {
        0
    } else {
        total_samples_s(vs.drop_last(), d) + seg_samples(vs[vs.len() - 2], vs[vs.len() - 1], d)
    }
}

/// The full point list of a layout: the head vertex followed by every
/// segment's contribution; a closed chain drops the final point, which
/// duplicates the head vertex.
pub open spec fn layout_points_s(vs: Seq<Vec2i>, d: int) -> Seq<Vec2i> {
    let base = seq![vs[0]] + chain_points_s(vs, d);
    if closed_chain(vs) {
        base.drop_last()
    } else {
        base
    }
}

/// Vertex flags aligned with [`layout_points_s`].
pub open spec fn layout_flags_s(vs: Seq<Vec2i>, d: int) -> Seq<bool> {
    let base = seq![true] + chain_flags_s(vs, d);
    if closed_chain(vs) {
        base.drop_last()
    } else {
        base
    }
}

/// Segment contributions and their flags stay aligned.
pub proof fn lemma_chain_len(vs: Seq<Vec2i>, d: int)
    ensures
        chain_points_s(vs, d).len() == total_samples_s(vs, d),
        chain_flags_s(vs, d).len() == total_samples_s(vs, d),
        total_samples_s(vs, d) >= 0,
        vs.len() >= 2 ==> total_samples_s(vs, d) >= 1,
    decreases vs.len(),
{
    if vs.len() >= 2 {
        lemma_chain_len(vs.drop_last(), d);
    }
}

/// Point count law. Each segment of the chain, taken alone, carries its
/// sample count plus one for its start vertex; concatenating the chain counts
/// every vertex shared by consecutive segments once, and a closed chain also
/// counts the vertex where the loop closes once. What remains is one point
/// for the head vertex plus the sample counts, and for a closed chain the
/// head point absorbs the final sample.
pub proof fn lemma_point_count_formula(vs: Seq<Vec2i>, d: int)
    requires
        vs.len() >= 2,
    ensures
        !closed_chain(vs) ==> layout_points_s(vs, d).len() == 1 + total_samples_s(vs, d),
        closed_chain(vs) ==> layout_points_s(vs, d).len() == total_samples_s(vs, d),
{
    lemma_chain_len(vs, d);
}

/// A closed chain's final sample lands exactly on the head vertex, so the
/// point the layout drops is a duplicate of the head, never a distinct point.
pub proof fn lemma_closed_chain_drops_duplicate(vs: Seq<Vec2i>, d: int)
    requires
        closed_chain(vs),
        forall|k: int| 0 <= k < vs.len() ==> in_bounds(#[trigger] vs[k]),
    ensures
        (seq![vs[0]] + chain_points_s(vs, d)).last() == vs[0],
        layout_points_s(vs, d) == (seq![vs[0]] + chain_points_s(vs, d)).drop_last(),
{
    lemma_chain_len(vs, d);
    let a = vs[vs.len() - 2];
    let b = vs[vs.len() - 1];
    let m = seg_samples(a, b, d);
    crate::geometry::lemma_lerp_at_end(a, b, m);
    assert(seg_points_s(a, b, d).last() == lerp_spec(a, b, m, m));
    assert((seq![vs[0]] + chain_points_s(vs, d)).last() == seg_points_s(a, b, d).last());
}

/// A prefix of the chain never contributes more points than the whole chain.
pub proof fn lemma_chain_prefix_len(vs: Seq<Vec2i>, d: int, t: int)
    requires
        0 <= t <= vs.len(),
    ensures
        chain_points_s(vs.subrange(0, t), d).len() <= chain_points_s(vs, d).len(),
    decreases vs.len(),
{
    lemma_chain_len(vs, d);
    lemma_chain_len(vs.subrange(0, t), d);
    if t == vs.len() {
        assert(vs.subrange(0, t) =~= vs);
    } else if vs.len() >= 2 {
        lemma_chain_prefix_len(vs.drop_last(), d, t);
        assert(vs.drop_last().subrange(0, t) =~= vs.subrange(0, t));
        lemma_chain_len(vs.drop_last(), d);
        assert(seg_points_s(vs[vs.len() - 2], vs[vs.len() - 1], d).len() >= 0);
    } else {
        assert(vs.subrange(0, t).len() < 2);
    }
}

fn is_ws_b(c: u8) -> (r: bool)
    ensures
        r == is_ws(c),
{
    c == 32 || c == 9 || c == 10 || c == 13
}

fn skip_ws(s: &[u8], i: usize) -> (r: usize)
    requires
        i <= s@.len(),
    ensures
        r == skip_ws_s(s@, i as int),
        i <= r <= s@.len(),
{
    let mut k = i;
    while k < s.len() && is_ws_b(s[k])
        invariant
            i <= k <= s@.len(),
            skip_ws_s(s@, i as int) == skip_ws_s(s@, k as int),
        decreases s@.len() - k,
    {
        k = k + 1;
    }
    k
}

fn scan_digits(s: &[u8], i: usize) -> (r: usize)
    requires
        i <= s@.len(),
    ensures
        r == scan_digits_s(s@, i as int),
        i <= r <= s@.len(),
{
    let mut k = i;
    while k < s.len() && 48 <= s[k] && s[k] <= 57
        invariant
            i <= k <= s@.len(),
            scan_digits_s(s@, i as int) == scan_digits_s(s@, k as int),
        decreases s@.len() - k,
    {
        k = k + 1;
    }
    k
}

/// Value of the digit run `s[i..j]`, known to be at most seven digits wide.
fn digits_val(s: &[u8], i: usize, j: usize) -> (r: i64)
    requires
        i <= j <= s@.len(),
        j - i <= 7,
        forall|k: int| i <= k < j ==> is_digit(#[trigger] s@[k]),
    ensures
        r == digits_val_s(s@, i as int, j as int),
        0 <= r < 10_000_000,
{
    proof {
        reveal_with_fuel(pow10, 8);
        lemma_digits_val_bound(s@, i as int, j as int, 7);
    }
    let mut acc: i64 = 0;
    let mut k = i;
    while k < j
        invariant
            i <= k <= j <= s@.len(),
            j - i <= 7,
            forall|t: int| i <= t < j ==> is_digit(#[trigger] s@[t]),
            acc == digits_val_s(s@, i as int, k as int),
            0 <= acc < 10_000_000,
        decreases j - k,
    {
        proof {
            reveal_with_fuel(pow10, 8);
            lemma_digits_val_bound(s@, i as int, k as int, 6);
        }
        acc = acc * 10 + ((s[k] - 48) as i64);
        k = k + 1;
        proof {
            reveal_with_fuel(pow10, 8);
            lemma_digits_val_bound(s@, i as int, k as int, 7);
        }
    }
    acc
}

fn arrow_at(s: &[u8], i: usize) -> (r: bool)
    requires
        i <= s@.len(),
    ensures
        r == at_arrow(s@, i as int),
{
    s.len() >= 3 && i <= s.len() - 3 && s[i] == 45 && s[i + 1] == 45 && s[i + 2] == 62
}

fn center_key_at(s: &[u8], i: usize) -> (r: bool)
    requires
        i <= s@.len(),
    ensures
        r == at_center_key(s@, i as int),
{
    s.len() >= 7 && i <= s.len() - 7 && s[i] == 99 && s[i + 1] == 101 && s[i + 2] == 110 && s[i + 3]
        == 116 && s[i + 4] == 101 && s[i + 5] == 114 && s[i + 6] == 58
}

fn density_key_at(s: &[u8], i: usize) -> (r: bool)
    requires
        i <= s@.len(),
    ensures
        r == at_density_key(s@, i as int),
{
    s.len() >= 8 && i <= s.len() - 8 && s[i] == 100 && s[i + 1] == 101 && s[i + 2] == 110 && s[i
        + 3] == 115 && s[i + 4] == 105 && s[i + 5] == 116 && s[i + 6] == 121 && s[i + 7] == 58
}

fn segments_marker_at(s: &[u8], i: usize) -> (r: bool)
    requires
        i <= s@.len(),
    ensures
        r == at_segments_marker(s@, i as int),
{
    s.len() >= 12 && i <= s.len() - 12 && s[i] == 45 && s[i + 1] == 45 && s[i + 2] == 115 && s[i
        + 3] == 101 && s[i + 4] == 103 && s[i + 5] == 109 && s[i + 6] == 101 && s[i + 7] == 110
        && s[i + 8] == 116 && s[i + 9] == 115 && s[i + 10] == 45 && s[i + 11] == 45
}

fn parse_num(s: &[u8], i: usize) -> (r: Option<(i64, usize)>)
    requires
        i <= s@.len(),
    ensures
        match r {
            Some((v, e)) => {
                &&& parse_num_s(s@, i as int) == Some((v as int, e as int))
                &&& i < e <= s@.len()
                &&& -10_000_000_000 < v < 10_000_000_000
            },
            None => parse_num_s(s@, i as int) is None,
        },
{
    let neg = i < s.len() && s[i] == 45;
    let i1 = if neg {
        i + 1
    } else {
        i
    };
    let j = scan_digits(s, i1);
    if j == i1 || j - i1 > 7 {
        return None;
    }
    proof {
        lemma_scan_digits_all_digits(s@, i1 as int);
    }
    let ip: i64 = digits_val(s, i1, j) * 1000;
    if j < s.len() && s[j] == 46 {
        let k = scan_digits(s, j + 1);
        if k == j + 1 || k - (j + 1) > 3 {
            return None;
        }
        proof {
            lemma_scan_digits_all_digits(s@, j + 1 as int);
        }
        let f = k - (j + 1);
        let scale: i64 = if f == 1 {
            100
        } else if f == 2 {
            10
        } else {
            1
        };
        let dv = digits_val(s, j + 1, k);
        proof {
            reveal_with_fuel(pow10, 4);
            lemma_digits_val_bound(s@, j + 1 as int, k as int, f as int);
            assert(0 <= dv * scale <= 999) by (nonlinear_arith)
                requires (scale == 100 && 0 <= dv <= 9) || (scale == 10 && 0 <= dv <= 99) || (scale
                    == 1 && 0 <= dv <= 999);
        }
        let v: i64 = ip + dv * scale;
        Some((if neg { -v } else { v }, k))
    } else {
        Some((if neg { -ip } else { ip }, j))
    }
}

fn parse_vec2(s: &[u8], i: usize) -> (r: Option<(Vec2i, usize)>)
    requires
        i <= s@.len(),
    ensures
        match r {
            Some((v, e)) => {
                &&& parse_vec2_s(s@, i as int) == Some((v, e as int))
                &&& i < e <= s@.len()
                &&& in_bounds(v)
            },
            None => parse_vec2_s(s@, i as int) is None,
        },
{
    let i0 = skip_ws(s, i);
    if !(i0 < s.len() && s[i0] == 40) {
        return None;
    }
    let i1 = skip_ws(s, i0 + 1);
    let (x, i2) = match parse_num(s, i1) {
        Some(p) => p,
        None => { return None },
    };
    let i3 = skip_ws(s, i2);
    if !(i3 < s.len() && s[i3] == 44) {
        return None;
    }
    let i4 = skip_ws(s, i3 + 1);
    let (y, i5) = match parse_num(s, i4) {
        Some(p) => p,
        None => { return None },
    };
    let i6 = skip_ws(s, i5);
    if i6 < s.len() && s[i6] == 41 && -1_000_000_000 <= x && x <= 1_000_000_000
        && -1_000_000_000 <= y && y <= 1_000_000_000 {
        Some((Vec2i { x, y }, i6 + 1))
    } else {
        None
    }
}

fn parse_more_vertices(s: &[u8], i: usize) -> (r: Option<(Vec<Vec2i>, usize)>)
    requires
        i <= s@.len(),
    ensures
        match r {
            Some((vs, e)) => {
                &&& parse_more_vertices_s(s@, i as int) == Some((vs@, e as int))
                &&& i <= e <= s@.len()
                &&& forall|k: int| 0 <= k < vs@.len() ==> in_bounds(#[trigger] vs@[k])
            },
            None => parse_more_vertices_s(s@, i as int) is None,
        },
    decreases s@.len() - i,
{
    let slen = s.len();
    let i0 = skip_ws(s, i);
    if arrow_at(s, i0) {
        proof {
            assert(i0 + 3 <= slen);
        }
        let (v, i2) = match parse_vec2(s, i0 + 3) {
            Some(p) => p,
            None => { return None },
        };
        match parse_more_vertices(s, i2) {
            Some(p) => {
                let (mut rest, e) = p;
                rest.insert(0, v);
                proof {
                    assert(rest@ == seq![v] + rest@.subrange(1, rest@.len() as int));
                }
                Some((rest, e))
            },
            None => None,
        }
    } else {
        Some((Vec::new(), i0))
    }
}

/// Parse a layout description. Returns the parsed layout exactly when the
/// whole text follows the grammar, its density is positive and within range,
/// and the segment section holds at least two vertices; otherwise the error
/// says which of those failed.
pub fn parse_layout(text: &str) -> (r: Result<Layout, LayoutParseError>)
    ensures
        r is Ok <==> layout_accepted(text.spec_bytes()),
        r is Ok ==> {
            let (c, d, vs) = parse_layout_s(text.spec_bytes())->Some_0;
            &&& r->Ok_0.center == c
            &&& r->Ok_0.density == d
            &&& r->Ok_0.vertices@ == vs
            &&& r->Ok_0.wf()
        },
        r == Err::<Layout, LayoutParseError>(LayoutParseError::Malformed) <==> parse_layout_s(
            text.spec_bytes(),
        ) is None,
        r == Err::<Layout, LayoutParseError>(LayoutParseError::BadDensity) <==> (parse_layout_s(
            text.spec_bytes(),
        ) is Some && !(0 < parse_layout_s(text.spec_bytes())->Some_0.1 <= MAX_DENSITY)),
        r == Err::<Layout, LayoutParseError>(LayoutParseError::EmptySegments) <==> (parse_layout_s(
            text.spec_bytes(),
        ) is Some && 0 < parse_layout_s(text.spec_bytes())->Some_0.1 <= MAX_DENSITY
            && parse_layout_s(text.spec_bytes())->Some_0.2.len() < 2),
        r != Err::<Layout, LayoutParseError>(LayoutParseError::TooManyPoints),
{
    let s = text.as_bytes();
    let slen = s.len();
    let h = skip_ws(s, 0);
    if !center_key_at(s, h) {
        return Err(LayoutParseError::Malformed);
    }
    let (c, p1) = match parse_vec2(s, h + 7) {
        Some(p) => p,
        None => { return Err(LayoutParseError::Malformed) },
    };
    let p2 = skip_ws(s, p1);
    if !density_key_at(s, p2) {
        return Err(LayoutParseError::Malformed);
    }
    let p2b = skip_ws(s, p2 + 8);
    let (d, p3) = match parse_num(s, p2b) {
        Some(p) => p,
        None => { return Err(LayoutParseError::Malformed) },
    };
    let p4 = skip_ws(s, p3);
    if !segments_marker_at(s, p4) {
        return Err(LayoutParseError::Malformed);
    }
    let (v0, p5) = match parse_vec2(s, p4 + 12) {
        Some(p) => p,
        None => { return Err(LayoutParseError::Malformed) },
    };
    let (rest, p6) = match parse_more_vertices(s, p5) {
        Some(p) => p,
        None => { return Err(LayoutParseError::Malformed) },
    };
    if skip_ws(s, p6) != slen {
        return Err(LayoutParseError::Malformed);
    }
    if !(0 < d && d <= MAX_DENSITY) {
        return Err(LayoutParseError::BadDensity);
    }
    if rest.len() == 0 {
        return Err(LayoutParseError::EmptySegments);
    }
    let mut vertices = rest;
    vertices.insert(0, v0);
    proof {
        assert(vertices@ == seq![v0] + vertices@.subrange(1, vertices@.len() as int));
        assert(vertices@ =~= parse_layout_s(text.spec_bytes())->Some_0.2);
    }
    Ok(Layout { center: c, density: d, vertices })
}

/// Sample every segment of a vertex chain into the layout's point list and
/// aligned vertex flags.
pub fn sample_chain(vertices: &Vec<Vec2i>, density: i64) -> (r: Result<
    (Vec<Vec2i>, Vec<bool>),
    LayoutParseError,
>)
    requires
        vertices@.len() >= 2,
        forall|k: int| 0 <= k < vertices@.len() ==> in_bounds(#[trigger] vertices@[k]),
        0 < density <= MAX_DENSITY,
    ensures
        match r {
            Ok(pf) => {
                &&& pf.0@ == layout_points_s(vertices@, density as int)
                &&& pf.1@ == layout_flags_s(vertices@, density as int)
                &&& 1 <= pf.0@.len() <= MAX_POINTS
                &&& pf.1@.len() == pf.0@.len()
                &&& forall|k: int| 0 <= k < pf.0@.len() ==> in_bounds(#[trigger] pf.0@[k])
                &&& 1 + chain_points_s(vertices@, density as int).len() <= MAX_POINTS
            },
            Err(e) => {
                &&& e == LayoutParseError::TooManyPoints
                &&& 1 + chain_points_s(vertices@, density as int).len() > MAX_POINTS
            },
        },
{
    let ghost dd = density as int;
    let mut pts: Vec<Vec2i> = Vec::new();
    let mut fl: Vec<bool> = Vec::new();
    pts.push(vertices[0]);
    fl.push(true);
    let mut t: usize = 1;
    proof {
        assert(vertices@.subrange(0, 1).len() < 2);
        assert(pts@ =~= seq![vertices@[0]] + chain_points_s(vertices@.subrange(0, 1), dd));
        assert(fl@ =~= seq![true] + chain_flags_s(vertices@.subrange(0, 1), dd));
    }
    while t < vertices.len()
        invariant
            1 <= t <= vertices@.len(),
            vertices@.len() >= 2,
            forall|k: int| 0 <= k < vertices@.len() ==> in_bounds(#[trigger] vertices@[k]),
            0 < density <= MAX_DENSITY,
            dd == density as int,
            pts@ == seq![vertices@[0]] + chain_points_s(vertices@.subrange(0, t as int), dd),
            fl@ == seq![true] + chain_flags_s(vertices@.subrange(0, t as int), dd),
            fl@.len() == pts@.len(),
            1 <= pts@.len() <= MAX_POINTS,
            forall|k: int| 0 <= k < pts@.len() ==> in_bounds(#[trigger] pts@[k]),
        decreases vertices@.len() - t,
    {
        let a = vertices[t - 1];
        let b = vertices[t];
        let n = seg_sample_count(a, b, density);
        if ((MAX_POINTS as u64) - (pts.len() as u64)) < n {
            proof {
                let w = vertices@.subrange(0, t + 1 as int);
                assert(w.drop_last() =~= vertices@.subrange(0, t as int));
                assert(chain_points_s(w, dd) == chain_points_s(w.drop_last(), dd) + seg_points_s(
                    a,
                    b,
                    dd,
                ));
                lemma_chain_prefix_len(vertices@, dd, t + 1);
            }
            return Err(LayoutParseError::TooManyPoints);
        }
        let ghost pts_before = pts@;
        let ghost fl_before = fl@;
        let mut j: u64 = 1;
        while j <= n
            invariant
                1 <= j <= n + 1,
                n == seg_samples(a, b, dd),
                1 <= n <= 4_000_000_000,
                in_bounds(a),
                in_bounds(b),
                0 < density <= MAX_DENSITY,
                dd == density as int,
                pts@ == pts_before + Seq::new((j - 1) as nat, |jj: int| lerp_spec(a, b, jj + 1, n as int)),
                fl@ == fl_before + Seq::new((j - 1) as nat, |jj: int| jj == n - 1),
                fl@.len() == pts@.len(),
                pts_before.len() + n <= MAX_POINTS,
                forall|k: int| 0 <= k < pts@.len() ==> in_bounds(#[trigger] pts@[k]),
            decreases n + 1 - j,
        {
            let p = lerp_point(a, b, j, n);
            pts.push(p);
            fl.push(j == n);
            j = j + 1;
            proof {
                assert(pts@ =~= pts_before + Seq::new(
                    (j - 1) as nat,
                    |jj: int| lerp_spec(a, b, jj + 1, n as int),
                ));
                assert(fl@ =~= fl_before + Seq::new((j - 1) as nat, |jj: int| jj == n - 1));
            }
        }
        proof {
            assert(Seq::new(n as nat, |jj: int| lerp_spec(a, b, jj + 1, n as int)) =~= seg_points_s(
                a,
                b,
                dd,
            ));
            assert(Seq::new(n as nat, |jj: int| jj == n - 1) =~= seg_flags_s(n as int));
            let w = vertices@.subrange(0, t + 1 as int);
            assert(w.drop_last() =~= vertices@.subrange(0, t as int));
            assert(w[w.len() - 2] == a && w[w.len() - 1] == b);
            assert(chain_points_s(w, dd) == chain_points_s(w.drop_last(), dd) + seg_points_s(
                a,
                b,
                dd,
            ));
            assert(pts@ =~= seq![vertices@[0]] + chain_points_s(w, dd));
            assert(fl@ =~= seq![true] + chain_flags_s(w, dd));
        }
        t = t + 1;
    }
    proof {
        assert(vertices@.subrange(0, vertices@.len() as int) =~= vertices@);
        lemma_chain_len(vertices@, dd);
    }
    let vlen = vertices.len();
    if vertices[0] == vertices[vlen - 1] {
        let _ = pts.pop();
        let _ = fl.pop();
    }
    Ok((pts, fl))
}

} // verus!
