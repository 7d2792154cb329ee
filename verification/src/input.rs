//! The odometry program's text inputs: the camera calibration file and the
//! ground-truth trajectory file.
use vstd::prelude::*;
use crate::text::{
    contains_chars, contains_piece, parse_u32, parse_u64, parse_unsigned, pieces_view,
    remove_brackets, split_on, split_on_char, split_whitespace, str_chars, whitespace_tokens,
    without_brackets,
};

verus! {

/// Lines of the calibration file that carry this marker are skipped.
pub open spec fn skip_marker() -> Seq<char> {
    "RGB Camera 1080p"@
}

/// The keys of the calibration file.
pub open spec fn focal_length_key() -> Seq<char> {
    "FocalLength:"@
}

pub open spec fn principal_point_key() -> Seq<char> {
    "PrincipalPoint:"@
}

pub open spec fn radial_distortion_key() -> Seq<char> {
    "RadialDistortion:"@
}

pub open spec fn image_size_key() -> Seq<char> {
    "ImageSize:"@
}

/// What one line of the calibration file says: which keys it names, and
/// its value tokens (every white-space separated token after the first,
/// brackets removed), with those of them that read as `u32`.
pub struct CalibLine {
    pub focal_length: bool,
    pub principal_point: bool,
    pub radial_distortion: bool,
    pub image_size: bool,
    pub values: Vec<Vec<char>>,
    pub integer_values: Vec<u32>,
}

/// The value tokens of a line: its white-space separated tokens after the
/// first, without brackets.
pub open spec fn value_tokens(line: Seq<char>) -> Seq<Seq<char>> {
    whitespace_tokens(line).drop_first().map_values(|t: Seq<char>| without_brackets(t))
}

/// The tokens that read as `u32`, with their values, in order.
pub open spec fn u32_values(tokens: Seq<Seq<char>>) -> Seq<u32>
    decreases tokens.len(),
{
    if tokens.len() == 0 {
        Seq::empty()
    } else {
        let prev = u32_values(tokens.drop_last());
        match parse_unsigned(tokens.last(), u32::MAX as nat) {
            Some(v) => prev.push(v as u32),
            None => prev,
        }
    }
}

/// Reads one line of the calibration file. A line naming the skip marker
/// names no key; otherwise each key counts when it occurs in the line.
pub fn parse_calib_line(line: &str) -> (r: CalibLine)
    ensures
        pieces_view(r.values@) == if whitespace_tokens(line@).len() == 0 {
            Seq::empty()
        } else {
            value_tokens(line@)
        },
        r.integer_values@ == u32_values(pieces_view(r.values@)),
        contains_piece(line@, skip_marker()) ==> !r.focal_length && !r.principal_point
            && !r.radial_distortion && !r.image_size,
        !contains_piece(line@, skip_marker()) ==> {
            &&& r.focal_length == contains_piece(line@, focal_length_key())
            &&& r.principal_point == contains_piece(line@, principal_point_key())
            &&& r.radial_distortion == contains_piece(line@, radial_distortion_key())
            &&& r.image_size == contains_piece(line@, image_size_key())
        },
{
    let chars = str_chars(line);
    let tokens = split_whitespace(&chars);
    let mut values: Vec<Vec<char>> = Vec::new();
    let mut integer_values: Vec<u32> = Vec::new();
    let mut i: usize = 1;
    let ghost toks = pieces_view(tokens@);
    proof {
        assert(toks.len() > 0 ==> toks.drop_first().take(0).map_values(|t: Seq<char>| without_brackets(t))
            =~= Seq::<Seq<char>>::empty());
    }
    while i < tokens.len()
        invariant
            1 <= i <= tokens@.len() || (tokens@.len() == 0 && i == 1),
            toks == pieces_view(tokens@),
            toks.len() > 0 ==> pieces_view(values@) == toks.drop_first().take(i - 1).map_values(
                |t: Seq<char>| without_brackets(t),
            ),
            toks.len() == 0 ==> values@.len() == 0,
            integer_values@ == u32_values(pieces_view(values@)),
        decreases tokens@.len() - i,
    {
        let v = remove_brackets(&tokens[i]);
        let ghost old_values = values@;
        let parsed = parse_u32(&v);
        let ghost vv = v@;
        values.push(v);
        proof {
            let f = |t: Seq<char>| without_brackets(t);
            let rest = toks.drop_first();
            assert(rest.take(i as int) =~= rest.take(i - 1).push(rest[i - 1]));
            assert(rest[i - 1] == tokens@[i as int]@);
            assert(pieces_view(values@) =~= pieces_view(old_values).push(vv));
            assert(pieces_view(values@).drop_last() =~= pieces_view(old_values));
        }
        match parsed {
            Some(n) => {
                integer_values.push(n);
            },
            None => {},
        }
        i = i + 1;
    }
    proof {
        if toks.len() > 0 {
            assert(toks.drop_first().take(toks.len() - 1) =~= toks.drop_first());
        }
    }
    let skip = contains_chars(&chars, &str_chars("RGB Camera 1080p"));
    let focal = contains_chars(&chars, &str_chars("FocalLength:"));
    let principal = contains_chars(&chars, &str_chars("PrincipalPoint:"));
    let radial = contains_chars(&chars, &str_chars("RadialDistortion:"));
    let size = contains_chars(&chars, &str_chars("ImageSize:"));
    CalibLine {
        focal_length: !skip && focal,
        principal_point: !skip && principal,
        radial_distortion: !skip && radial,
        image_size: !skip && size,
        values,
        integer_values,
    }
}

/// The fields of one ground-truth line `x,y,z,frame`: the raw text of the
/// three coordinates and the frame number (0 when it does not read as `u64`).
pub struct GroundTruthLine {
    pub x: Vec<char>,
    pub y: Vec<char>,
    pub z: Vec<char>,
    pub frame: u64,
}

/// Reads one ground-truth line: `None` when it has fewer than four
/// comma-separated fields; extra fields are ignored.
pub fn parse_ground_truth_line(line: &str) -> (r: Option<GroundTruthLine>)
    ensures
        split_on(line@, ',').len() < 4 <==> r is None,
        match r {
            Some(g) => {
                let parts = split_on(line@, ',');
                &&& g.x@ == parts[0]
                &&& g.y@ == parts[1]
                &&& g.z@ == parts[2]
                &&& g.frame as nat == match parse_unsigned(parts[3], u64::MAX as nat) {
                    Some(v) => v,
                    None => 0,
                }
            },
            None => true,
        },
{
    let chars = str_chars(line);
    let mut parts = split_on_char(&chars, ',');
    if parts.len() < 4 {
        return None;
    }
    let ghost pv = pieces_view(parts@);
    let frame = match parse_u64(&parts[3]) {
        Some(v) => v,
        None => 0,
    };
    assert(pv[3] == parts@[3]@);
    let z = parts.swap_remove(2);
    let y = parts.swap_remove(1);
    let x = parts.swap_remove(0);
    proof {
        assert(x@ == pv[0]);
        assert(y@ == pv[1]);
        assert(z@ == pv[2]);
    }
    Some(GroundTruthLine { x, y, z, frame })
}


/// Law: the integer values of a calibration line hold one entry for every
/// value token that reads as `u32`, in order, and nothing else: `idx` lists
/// the positions of those tokens, strictly increasing, and the `k`-th value
/// is what the token at `idx[k]` reads as.
pub proof fn law_integer_values_one_per_number(tokens: Seq<Seq<char>>) -> (idx: Seq<int>)
    ensures
        idx.len() == u32_values(tokens).len(),
        forall|k: int| 0 <= k < idx.len() ==> 0 <= #[trigger] idx[k] < tokens.len(),
        forall|a: int, b: int| 0 <= a < b < idx.len() ==> idx[a] < idx[b],
        forall|k: int|
            0 <= k < idx.len() ==> parse_unsigned(tokens[#[trigger] idx[k]], u32::MAX as nat) == Some(
                u32_values(tokens)[k] as nat,
            ),
        forall|j: int|
            0 <= j < tokens.len() && #[trigger] parse_unsigned(tokens[j], u32::MAX as nat) is Some
                ==> exists|k: int| 0 <= k < idx.len() && idx[k] == j,
    decreases tokens.len(),
{
    if tokens.len() == 0 {
        Seq::empty()
    } else {
        let d = tokens.drop_last();
        let i0 = law_integer_values_one_per_number(d);
        let last = tokens.len() - 1;
        assert forall|j: int| 0 <= j < d.len() implies #[trigger] d[j] == tokens[j] by {}
        match parse_unsigned(tokens.last(), u32::MAX as nat) {
            Some(v) => {
                let idx = i0.push(last);
                assert forall|j: int|
                    0 <= j < tokens.len() && #[trigger] parse_unsigned(tokens[j], u32::MAX as nat) is Some
                    implies exists|k: int| 0 <= k < idx.len() && idx[k] == j by {
                    if j == last {
                        assert(idx[i0.len() as int] == j);
                    } else {
                        assert(parse_unsigned(d[j], u32::MAX as nat) is Some);
                        let k = choose|k: int| 0 <= k < i0.len() && i0[k] == j;
                        assert(idx[k] == j);
                    }
                }
                assert forall|k: int| 0 <= k < idx.len() implies parse_unsigned(
                    tokens[#[trigger] idx[k]],
                    u32::MAX as nat,
                ) == Some(u32_values(tokens)[k] as nat) by {
                    if k < i0.len() {
                        assert(idx[k] == i0[k]);
                        assert(tokens[i0[k]] == d[i0[k]]);
                    }
                }
                idx
            },
            None => {
                assert forall|j: int|
                    0 <= j < tokens.len() && #[trigger] parse_unsigned(tokens[j], u32::MAX as nat) is Some
                    implies exists|k: int| 0 <= k < i0.len() && i0[k] == j by {
                    assert(j != last);
                    assert(parse_unsigned(d[j], u32::MAX as nat) is Some);
                }
                assert forall|k: int| 0 <= k < i0.len() implies parse_unsigned(
                    tokens[#[trigger] i0[k]],
                    u32::MAX as nat,
                ) == Some(u32_values(tokens)[k] as nat) by {
                    assert(tokens[i0[k]] == d[i0[k]]);
                }
                i0
            },
        }
    }
}

} // verus!
