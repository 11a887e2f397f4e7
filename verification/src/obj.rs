//! Helpers for mesh files: index parsing and face assembly. Reading the
//! file and converting its coordinate literals is the caller's job.

use crate::point::Point;
use crate::triangle::Triangle;
use crate::vector::UnitVector;
use vstd::prelude::*;
use vstd::string::StringSliceAdditionalSpecFns;

verus! {

/// A mesh description that does not hold together.
#[derive(Clone, Copy, PartialEq, Eq, Structural, Debug)]
pub struct ParseObjError;

/// What `read_index` computes over the string's bytes: a nonempty all-digit
/// string as a number, shifted to zero-based.
pub open spec fn spec_read_index(bs: Seq<u8>) -> Option<int>
    decreases bs.len(),
{
    if bs.len() == 0 {
        None
    } else {
        match spec_digits_value(bs) {
            Some(v) => if v >= 1 {
                Some(v - 1)
            } else {
                None
            },
            None => None,
        }
    }
}

/// The value of an all-digit byte string, or `None`.
pub open spec fn spec_digits_value(bs: Seq<u8>) -> Option<int>
    decreases bs.len(),
{
    if bs.len() == 0 {
        Some(0)
    } else {
        let b = bs.last();
        if 48 <= b <= 57 {
            match spec_digits_value(bs.drop_last()) {
                Some(v) => Some(v * 10 + (b - 48)),
                None => None,
            }
        } else {
            None
        }
    }
}

/// Parses a one-based face index into a zero-based one. Rejects empty or
/// non-digit strings, the index zero, and indices beyond `0xFFFF_FFFF`.
#[verifier::rlimit(50)]
pub fn read_index(s: &str) -> (r: Result<usize, ParseObjError>)
    ensures
        match r {
            Ok(idx) => spec_read_index(s.spec_bytes()) == Some(idx as int) && idx <= 0xFFFF_FFFF,
            Err(_) => spec_read_index(s.spec_bytes()) is None || (match spec_read_index(
                s.spec_bytes(),
            ) {
                Some(v) => v >= 0xFFFF_FFFF,
                None => true,
            }),
        },
{
    let bs = s.as_bytes();
    if bs.len() == 0 {
        return Err(ParseObjError);
    }
    let mut acc: u64 = 0;
    let mut i: usize = 0;
    let ghost whole = s.spec_bytes();
    while i < bs.len()
        invariant
            bs@ == whole,
            whole == s.spec_bytes(),
            i <= whole.len(),
            acc <= 0xFFFF_FFFF_F,
            spec_digits_value(whole.subrange(0, i as int)) == Some(acc as int),
        decreases whole.len() - i,
    {
        let b = bs[i];
        if !(b >= 48 && b <= 57) {
            proof {
                lemma_digits_prefix_bad(whole, i as int);
                assert(spec_read_index(whole) is None);
            }
            return Err(ParseObjError);
        }
        if acc > 0xFFFF_FFFF {
            proof {
                lemma_digits_grow(whole, i as int, acc as int);
                assert(match spec_read_index(whole) {
                    Some(v) => v >= 0xFFFF_FFFF,
                    None => true,
                });
            }
            return Err(ParseObjError);
        }
        let d: u64 = (b - 48) as u64;
        proof {
            assert(whole.subrange(0, i as int + 1).drop_last() =~= whole.subrange(0, i as int));
            assert(whole.subrange(0, i as int + 1).last() == whole[i as int]);
        }
        acc = acc * 10 + d;
        i = i + 1;
    }
    proof {
        assert(whole.subrange(0, whole.len() as int) =~= whole);
    }
    if acc == 0 || acc > 0x1_0000_0000 {
        return Err(ParseObjError);
    }
    Ok((acc - 1) as usize)
}

/// A rejected digit anywhere makes the whole string parse to `None`.
proof fn lemma_digits_prefix_bad(bs: Seq<u8>, i: int)
    requires
        0 <= i < bs.len(),
        !(48 <= bs[i] <= 57),
    ensures
        spec_digits_value(bs) is None,
        spec_read_index(bs) is None,
    decreases bs.len(),
{
    if bs.len() > 0 {
        if i == bs.len() - 1 {
        } else {
            lemma_digits_prefix_bad(bs.drop_last(), i);
        }
    }
}

/// The value of a digit string is at least the value of any of its
/// prefixes; so an overflowing prefix dooms the whole string.
proof fn lemma_digits_grow(bs: Seq<u8>, i: int, prefix_val: int)
    requires
        0 <= i <= bs.len(),
        spec_digits_value(bs.subrange(0, i)) == Some(prefix_val),
        prefix_val > 0xFFFF_FFFF,
    ensures
        match spec_digits_value(bs) {
            Some(v) => v > 0xFFFF_FFFF,
            None => true,
        },
        match spec_read_index(bs) {
            Some(v) => v >= 0xFFFF_FFFF,
            None => true,
        },
    decreases bs.len() - i,
{
    if i == bs.len() {
        assert(bs.subrange(0, i) =~= bs);
    } else {
        let b = bs[i];
        if 48 <= b <= 57 {
            assert(bs.subrange(0, i + 1).drop_last() =~= bs.subrange(0, i));
            assert(bs.subrange(0, i + 1).last() == bs[i]);
            let next = prefix_val * 10 + (b - 48);
            assert(next > 0xFFFF_FFFF) by (nonlinear_arith)
                requires
                    prefix_val > 0xFFFF_FFFF,
                    next == prefix_val * 10 + (b - 48),
                    b >= 48,
            ;
            lemma_digits_grow(bs, i + 1, next);
        } else {
            lemma_digits_prefix_bad(bs, i);
        }
    }
}

/// Assembles one face, skipping degenerate vertex triples as mesh loaders
/// conventionally do: returns `None` for a degenerate (zero-area) face, an
/// error for an out-of-range index.
pub fn build_face(points: &Vec<Point>, a: usize, b: usize, c: usize) -> (r: Result<
    Option<Triangle>,
    ParseObjError,
>)
    requires
        forall|i: int| 0 <= i < points@.len() ==> (#[trigger] points@[i]).wf(),
    ensures
        match r {
            Ok(Some(t)) => a < points@.len() && b < points@.len() && c < points@.len() && t.wf()
                && t.a == points@[a as int],
            Ok(None) => true,
            Err(_) => a >= points@.len() || b >= points@.len() || c >= points@.len(),
        },
{
    if a >= points.len() || b >= points.len() || c >= points.len() {
        return Err(ParseObjError);
    }
    let pa = points[a];
    let pb = points[b];
    let pc = points[c];
    if !Triangle::are_valid_points(pa, pb, pc) {
        return Ok(None);
    }
    Ok(Some(Triangle::new(pa, pb, pc)))
}

/// Assembles one face with explicit per-vertex normals; the same index
/// checks and degeneracy skip as `build_face`.
pub fn build_face_normals(
    points: &Vec<Point>,
    normals: &Vec<UnitVector>,
    a: usize,
    b: usize,
    c: usize,
    na: usize,
    nb: usize,
    nc: usize,
) -> (r: Result<Option<Triangle>, ParseObjError>)
    requires
        forall|i: int| 0 <= i < points@.len() ==> (#[trigger] points@[i]).wf(),
        forall|i: int| 0 <= i < normals@.len() ==> (#[trigger] normals@[i]).wf(),
    ensures
        match r {
            Ok(Some(t)) => t.wf(),
            Ok(None) => true,
            Err(_) => a >= points@.len() || b >= points@.len() || c >= points@.len() || na
                >= normals@.len() || nb >= normals@.len() || nc >= normals@.len(),
        },
{
    if a >= points.len() || b >= points.len() || c >= points.len() {
        return Err(ParseObjError);
    }
    if na >= normals.len() || nb >= normals.len() || nc >= normals.len() {
        return Err(ParseObjError);
    }
    let pa = points[a];
    let pb = points[b];
    let pc = points[c];
    if !Triangle::are_valid_points(pa, pb, pc) {
        return Ok(None);
    }
    Ok(Some(Triangle::with_normals(pa, pb, pc, [normals[na], normals[nb], normals[nc]])))
}

} // verus!
