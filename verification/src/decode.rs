//! The fixed-column decoder: raw file text to a validated [`Structure`].
//!
//! The accepted layout is: a title line; a line holding the atom count; that
//! many fixed-width atom records (five-column residue number, residue name,
//! atom name and atom number, then three eight-column coordinates); and one
//! box-vector line of whitespace-separated values, three mandatory diagonal
//! terms followed by either exactly six further off-diagonal terms or
//! anything else, in which case the off-diagonal terms default to zero.
//!
//! [`spec_decode`] gives the whole grammar as one specification function,
//! and [`Structure::from_gro`] is proved to return exactly its value:
//! the decoded structure on well-formed input, and the first violation
//! (truncation, bad atom count, malformed field, bad box line) otherwise.

use vstd::prelude::*;
use vstd::string::StringSliceAdditionalSpecFns;

use crate::scan::{
    find_in, skip_spaces, rskip_spaces, parse_uint, parse_dec_micro, lemma_pow10_vals,
    find_in_ex, skip_spaces_ex, find_space_ex, trim_ex, parse_uint_ex, parse_fixed_ex,
    find_space,
};
use crate::structure::{
    Atom, AtomV, BoxVectors, Name, Structure, StructureV, Vec3Fixed, coords_bounded,
    center_shift_fits, lemma_bounded_coords_shift_fits,
};

verus! {

/// Largest coordinate magnitude the decoder accepts, in millionths: an
/// eight-column field can hold at most eight integer digits, so every
/// in-range field value lies strictly below this bound.
pub const POS_LIMIT: i64 = 100_000_000_000_000;

/// The sub-field of an atom record, for error reports.
#[derive(Debug, Clone, Copy, PartialEq, Eq, Structural)]
pub enum AtomField {
    ResidueNumber,
    ResidueName,
    AtomName,
    AtomNumber,
    PosX,
    PosY,
    PosZ,
}

/// A decode failure: the first violation found in the input text.
#[derive(Debug, Clone, Copy, PartialEq, Eq, Structural)]
pub enum DecodeError {
    /// Fewer lines than the title, count, atom records and box line require.
    TruncatedInput,
    /// The second line does not hold a representable non-negative integer.
    InvalidAtomCount,
    /// A fixed-width numeric sub-field of an atom record does not parse.
    MalformedAtomRecord { field: AtomField, record_index: usize },
    /// Fewer than three parseable tokens on the box-vector line.
    MalformedBoxVectors,
    /// A residue or atom name wider than five bytes.
    NameOverflow { record_index: usize, field: AtomField },
}

/// End of the line starting at `pos`: the index of the next newline, or the
/// end of the text.
pub open spec fn line_end(s: Seq<u8>, pos: int) -> int {
    find_in(s, pos, s.len() as int, 10)
}

/// End of the line's text, with a trailing carriage return dropped.
pub open spec fn line_text_end(s: Seq<u8>, pos: int) -> int {
    let e = line_end(s, pos);
    if e > pos && s[e - 1] == 13 {
        e - 1
    } else {
        e
    }
}

/// Start of the following line; the end of the text when none follows.
pub open spec fn next_line_pos(s: Seq<u8>, pos: int) -> int {
    let e = line_end(s, pos);
    if e < s.len() {
        e + 1
    } else {
        e
    }
}

/// Number of lines from `pos` to the end of the text.
pub open spec fn lines_from(s: Seq<u8>, pos: int) -> int
    decreases s.len() - pos when 0 <= pos <= s.len() via lines_from_decreases
{
    if pos >= s.len() {
        0
    } else {
        1 + lines_from(s, next_line_pos(s, pos))
    }
}

#[via_fn]
proof fn lines_from_decreases(s: Seq<u8>, pos: int) {
    if pos < s.len() {
        crate::scan::lemma_find_in_bounds(s, pos, s.len() as int, 10);
    }
}

/// Start of the trimmed text of `[lo, hi)`.
pub open spec fn trim_lo(s: Seq<u8>, lo: int, hi: int) -> int {
    skip_spaces(s, lo, hi)
}

/// End of the trimmed text of `[lo, hi)`.
pub open spec fn trim_hi(s: Seq<u8>, lo: int, hi: int) -> int {
    rskip_spaces(s, trim_lo(s, lo, hi), hi)
}

/// The first field whose fixed columns stick out of a record of width `w`.
pub open spec fn first_missing_field(w: int) -> AtomField {
    if w < 5 {
        AtomField::ResidueNumber
    } else if w < 10 {
        AtomField::ResidueName
    } else if w < 15 {
        AtomField::AtomName
    } else if w < 20 {
        AtomField::AtomNumber
    } else if w < 28 {
        AtomField::PosX
    } else if w < 36 {
        AtomField::PosY
    } else {
        AtomField::PosZ
    }
}

/// Decode one atom record from the line `[lo, hi)`, reporting the first
/// failing field of record `idx`.
pub open spec fn spec_parse_atom(s: Seq<u8>, lo: int, hi: int, idx: int) -> Result<
    AtomV,
    DecodeError,
> {
    if hi - lo < 44 {
        Err(DecodeError::MalformedAtomRecord {
            field: first_missing_field(hi - lo),
            record_index: idx as usize,
        })
    } else {
        match parse_uint(s, trim_lo(s, lo, lo + 5), trim_hi(s, lo, lo + 5)) {
            None => Err(DecodeError::MalformedAtomRecord {
                field: AtomField::ResidueNumber,
                record_index: idx as usize,
            }),
            Some(rn) => if rn > u32::MAX as int {
                Err(DecodeError::MalformedAtomRecord {
                    field: AtomField::ResidueNumber,
                    record_index: idx as usize,
                })
            } else {
                let rname = s.subrange(trim_lo(s, lo + 5, lo + 10), trim_hi(s, lo + 5, lo + 10));
                if rname.len() > 5 {
                    Err(DecodeError::NameOverflow {
                        record_index: idx as usize,
                        field: AtomField::ResidueName,
                    })
                } else {
                    let aname = s.subrange(
                        trim_lo(s, lo + 10, lo + 15),
                        trim_hi(s, lo + 10, lo + 15),
                    );
                    if aname.len() > 5 {
                        Err(DecodeError::NameOverflow {
                            record_index: idx as usize,
                            field: AtomField::AtomName,
                        })
                    } else {
                        match parse_uint(s, trim_lo(s, lo + 15, lo + 20), trim_hi(s, lo + 15, lo + 20)) {
                            None => Err(DecodeError::MalformedAtomRecord {
                                field: AtomField::AtomNumber,
                                record_index: idx as usize,
                            }),
                            Some(an) => if an > u32::MAX as int {
                                Err(DecodeError::MalformedAtomRecord {
                                    field: AtomField::AtomNumber,
                                    record_index: idx as usize,
                                })
                            } else {
                                spec_parse_positions(s, lo, hi, idx, rn, rname, aname, an)
                            },
                        }
                    }
                }
            },
        }
    }
}

/// Decode the three eight-column coordinates of an atom record.
pub open spec fn spec_parse_positions(
    s: Seq<u8>,
    lo: int,
    hi: int,
    idx: int,
    rn: int,
    rname: Seq<u8>,
    aname: Seq<u8>,
    an: int,
) -> Result<AtomV, DecodeError> {
    match parse_dec_micro(s, trim_lo(s, lo + 20, lo + 28), trim_hi(s, lo + 20, lo + 28)) {
        None => Err(DecodeError::MalformedAtomRecord {
            field: AtomField::PosX,
            record_index: idx as usize,
        }),
        Some(x) => if x < -(POS_LIMIT as int) || x > POS_LIMIT as int {
            Err(DecodeError::MalformedAtomRecord {
                field: AtomField::PosX,
                record_index: idx as usize,
            })
        } else {
            match parse_dec_micro(s, trim_lo(s, lo + 28, lo + 36), trim_hi(s, lo + 28, lo + 36)) {
                None => Err(DecodeError::MalformedAtomRecord {
                    field: AtomField::PosY,
                    record_index: idx as usize,
                }),
                Some(y) => if y < -(POS_LIMIT as int) || y > POS_LIMIT as int {
                    Err(DecodeError::MalformedAtomRecord {
                        field: AtomField::PosY,
                        record_index: idx as usize,
                    })
                } else {
                    match parse_dec_micro(
                        s,
                        trim_lo(s, lo + 36, lo + 44),
                        trim_hi(s, lo + 36, lo + 44),
                    ) {
                        None => Err(DecodeError::MalformedAtomRecord {
                            field: AtomField::PosZ,
                            record_index: idx as usize,
                        }),
                        Some(z) => if z < -(POS_LIMIT as int) || z > POS_LIMIT as int {
                            Err(DecodeError::MalformedAtomRecord {
                                field: AtomField::PosZ,
                                record_index: idx as usize,
                            })
                        } else {
                            Ok(AtomV {
                                resnum: rn,
                                resname: rname,
                                atomname: aname,
                                atomnum: an,
                                x: x,
                                y: y,
                                z: z,
                            })
                        },
                    }
                },
            }
        },
    }
}

/// Bounds of the `k`-th whitespace-separated token of `[lo, hi)`; both
/// bounds equal `hi` when there is no such token.
pub open spec fn token_at(s: Seq<u8>, lo: int, hi: int, k: int) -> (int, int)
    decreases k when k >= 0
{
    if k <= 0 {
        let a = skip_spaces(s, lo, hi);
        (a, find_space(s, a, hi))
    } else {
        let prev = token_at(s, lo, hi, k - 1);
        let a = skip_spaces(s, prev.1, hi);
        (a, find_space(s, a, hi))
    }
}

pub open spec fn has_token(s: Seq<u8>, lo: int, hi: int, k: int) -> bool {
    token_at(s, lo, hi, k).0 < hi
}

/// The `k`-th token's value in millionths, if the token exists, parses as a
/// fixed-point decimal, and fits an `i64`.
pub open spec fn box_token_val(s: Seq<u8>, lo: int, hi: int, k: int) -> Option<int> {
    let t = token_at(s, lo, hi, k);
    match parse_dec_micro(s, t.0, t.1) {
        Some(v) => if -(i64::MAX as int) <= v <= i64::MAX as int {
            Some(v)
        } else {
            None
        },
        None => None,
    }
}

pub open spec fn some_or_zero(o: Option<int>) -> int {
    match o {
        Some(v) => v,
        None => 0,
    }
}

/// Decode the box-vector line `[lo, hi)`: three mandatory diagonal terms;
/// the six off-diagonal terms are taken only when exactly six further tokens
/// follow and all of them parse, and default to zero otherwise.
pub open spec fn spec_parse_box(s: Seq<u8>, lo: int, hi: int) -> Result<BoxVectors, DecodeError> {
    match (box_token_val(s, lo, hi, 0), box_token_val(s, lo, hi, 1), box_token_val(s, lo, hi, 2)) {
        (Some(d0), Some(d1), Some(d2)) => {
            let off_ok = has_token(s, lo, hi, 8) && !has_token(s, lo, hi, 9) && box_token_val(
                s,
                lo,
                hi,
                3,
            ) is Some && box_token_val(s, lo, hi, 4) is Some && box_token_val(s, lo, hi, 5) is Some
                && box_token_val(s, lo, hi, 6) is Some && box_token_val(s, lo, hi, 7) is Some
                && box_token_val(s, lo, hi, 8) is Some;
            if off_ok {
                Ok(BoxVectors {
                    v1x: d0 as i64,
                    v2y: d1 as i64,
                    v3z: d2 as i64,
                    v1y: some_or_zero(box_token_val(s, lo, hi, 3)) as i64,
                    v1z: some_or_zero(box_token_val(s, lo, hi, 4)) as i64,
                    v2x: some_or_zero(box_token_val(s, lo, hi, 5)) as i64,
                    v2z: some_or_zero(box_token_val(s, lo, hi, 6)) as i64,
                    v3x: some_or_zero(box_token_val(s, lo, hi, 7)) as i64,
                    v3y: some_or_zero(box_token_val(s, lo, hi, 8)) as i64,
                })
            } else {
                Ok(BoxVectors {
                    v1x: d0 as i64,
                    v2y: d1 as i64,
                    v3z: d2 as i64,
                    v1y: 0,
                    v1z: 0,
                    v2x: 0,
                    v2z: 0,
                    v3x: 0,
                    v3y: 0,
                })
            }
        },
        _ => Err(DecodeError::MalformedBoxVectors),
    }
}

/// Decode atom records `k..n`, starting at text position `pos`; on success
/// also yields the position of the line after the last record.
pub open spec fn spec_parse_atoms(s: Seq<u8>, pos: int, k: int, n: int) -> Result<
    (Seq<AtomV>, int),
    DecodeError,
>
    decreases n - k when k <= n
{
    if k >= n {
        Ok((Seq::empty(), pos))
    } else if pos >= s.len() {
        Err(DecodeError::TruncatedInput)
    } else {
        match spec_parse_atom(s, pos, line_text_end(s, pos), k) {
            Err(e) => Err(e),
            Ok(a) => match spec_parse_atoms(s, next_line_pos(s, pos), k + 1, n) {
                Err(e) => Err(e),
                Ok(r) => Ok((seq![a] + r.0, r.1)),
            },
        }
    }
}

/// The decoder's full specification: the structure a text denotes, or the
/// first violation found. The text must hold at least `n + 3` lines for a
/// declared count of `n`; the title is the trimmed first line; trailing
/// lines after the box line are ignored.
pub open spec fn spec_decode(s: Seq<u8>) -> Result<StructureV, DecodeError> {
    let total = lines_from(s, 0);
    if total < 2 {
        Err(DecodeError::TruncatedInput)
    } else {
        let t_hi = line_text_end(s, 0);
        let title = s.subrange(trim_lo(s, 0, t_hi), trim_hi(s, 0, t_hi));
        let p1 = next_line_pos(s, 0);
        let c_hi = line_text_end(s, p1);
        match parse_uint(s, trim_lo(s, p1, c_hi), trim_hi(s, p1, c_hi)) {
            None => Err(DecodeError::InvalidAtomCount),
            Some(nv) => if nv > usize::MAX as int {
                Err(DecodeError::InvalidAtomCount)
            } else if total < nv + 3 {
                Err(DecodeError::TruncatedInput)
            } else {
                let p2 = next_line_pos(s, p1);
                match spec_parse_atoms(s, p2, 0, nv) {
                    Err(e) => Err(e),
                    Ok(r) => match spec_parse_box(s, r.1, line_text_end(s, r.1)) {
                        Err(e) => Err(e),
                        Ok(bv) => Ok(StructureV { title: title, atoms: r.0, box_vecs: bv }),
                    },
                }
            },
        }
    }
}

/// Copy the byte range `[lo, hi)` out of the text.
#[verifier::loop_isolation(false)]
fn copy_range(s: &[u8], lo: usize, hi: usize) -> (r: Vec<u8>)
    requires
        lo <= hi <= s@.len(),
    ensures
        r@ == s@.subrange(lo as int, hi as int),
{
    let mut out: Vec<u8> = Vec::new();
    let mut i: usize = lo;
    while i < hi
        invariant
            lo <= i <= hi,
            out@ =~= s@.subrange(lo as int, i as int),
        decreases hi - i,
    {
        out.push(s[i]);
        proof {
            assert(s@.subrange(lo as int, i + 1) =~= s@.subrange(lo as int, i as int).push(
                s@[i as int],
            ));
        }
        i = i + 1;
    }
    out
}

/// End of the current line's text and start of the next line.
#[verifier::loop_isolation(false)]
fn line_bounds_ex(s: &[u8], pos: usize) -> (r: (usize, usize))
    requires
        pos <= s@.len(),
    ensures
        r.0 as int == line_text_end(s@, pos as int),
        r.1 as int == next_line_pos(s@, pos as int),
        pos <= r.0 <= s@.len(),
        r.1 <= s@.len(),
        pos < s@.len() ==> pos < r.1,
{
    let e: usize = find_in_ex(s, pos, s.len(), 10);
    let te: usize = if e > pos && s[e - 1] == 13 {
        e - 1
    } else {
        e
    };
    let np: usize = if e < s.len() {
        e + 1
    } else {
        e
    };
    (te, np)
}

/// Count the lines of the text.
#[verifier::loop_isolation(false)]
fn count_lines(s: &[u8]) -> (r: usize)
    ensures
        r as int == lines_from(s@, 0),
{
    let mut pos: usize = 0;
    let mut cnt: usize = 0;
    while pos < s.len()
        invariant
            pos <= s@.len(),
            cnt <= pos,
            cnt as int + lines_from(s@, pos as int) == lines_from(s@, 0),
        decreases s@.len() - pos,
    {
        let r: (usize, usize) = line_bounds_ex(s, pos);
        pos = r.1;
        cnt = cnt + 1;
    }
    cnt
}

/// Decode one atom record from the line `[lo, hi)`.
#[verifier::loop_isolation(false)]
#[verifier::rlimit(50)]
fn parse_atom_ex(s: &[u8], lo: usize, hi: usize, idx: usize) -> (r: Result<Atom, DecodeError>)
    requires
        lo <= hi <= s@.len(),
    ensures
        match r {
            Ok(a) => spec_parse_atom(s@, lo as int, hi as int, idx as int) == Ok::<
                AtomV,
                DecodeError,
            >(a@) && -(POS_LIMIT as int) <= a@.x <= POS_LIMIT as int && -(POS_LIMIT as int)
                <= a@.y <= POS_LIMIT as int && -(POS_LIMIT as int) <= a@.z <= POS_LIMIT as int,
            Err(e) => spec_parse_atom(s@, lo as int, hi as int, idx as int) == Err::<
                AtomV,
                DecodeError,
            >(e),
        },
{
    if hi - lo < 44 {
        let w: usize = hi - lo;
        let field: AtomField = if w < 5 {
            AtomField::ResidueNumber
        } else if w < 10 {
            AtomField::ResidueName
        } else if w < 15 {
            AtomField::AtomName
        } else if w < 20 {
            AtomField::AtomNumber
        } else if w < 28 {
            AtomField::PosX
        } else if w < 36 {
            AtomField::PosY
        } else {
            AtomField::PosZ
        };
        return Err(DecodeError::MalformedAtomRecord { field, record_index: idx });
    }
    proof {
        lemma_pow10_vals();
    }
    let t0: (usize, usize) = trim_ex(s, lo, lo + 5);
    let resnum: u32 = match parse_uint_ex(s, t0.0, t0.1, u32::MAX as u128) {
        Some(v) => v as u32,
        None => {
            return Err(DecodeError::MalformedAtomRecord {
                field: AtomField::ResidueNumber,
                record_index: idx,
            });
        },
    };
    let t1: (usize, usize) = trim_ex(s, lo + 5, lo + 10);
    let resname: Name = match Name::new(copy_range(s, t1.0, t1.1)) {
        Some(nm) => nm,
        None => {
            return Err(DecodeError::NameOverflow {
                record_index: idx,
                field: AtomField::ResidueName,
            });
        },
    };
    let t2: (usize, usize) = trim_ex(s, lo + 10, lo + 15);
    let atomname: Name = match Name::new(copy_range(s, t2.0, t2.1)) {
        Some(nm) => nm,
        None => {
            return Err(DecodeError::NameOverflow {
                record_index: idx,
                field: AtomField::AtomName,
            });
        },
    };
    let t3: (usize, usize) = trim_ex(s, lo + 15, lo + 20);
    let atomnum: u32 = match parse_uint_ex(s, t3.0, t3.1, u32::MAX as u128) {
        Some(v) => v as u32,
        None => {
            return Err(DecodeError::MalformedAtomRecord {
                field: AtomField::AtomNumber,
                record_index: idx,
            });
        },
    };
    let tx: (usize, usize) = trim_ex(s, lo + 20, lo + 28);
    let x: i64 = match parse_fixed_ex(s, tx.0, tx.1, POS_LIMIT) {
        Some(v) => v,
        None => {
            return Err(DecodeError::MalformedAtomRecord {
                field: AtomField::PosX,
                record_index: idx,
            });
        },
    };
    let ty: (usize, usize) = trim_ex(s, lo + 28, lo + 36);
    let y: i64 = match parse_fixed_ex(s, ty.0, ty.1, POS_LIMIT) {
        Some(v) => v,
        None => {
            return Err(DecodeError::MalformedAtomRecord {
                field: AtomField::PosY,
                record_index: idx,
            });
        },
    };
    let tz: (usize, usize) = trim_ex(s, lo + 36, lo + 44);
    let z: i64 = match parse_fixed_ex(s, tz.0, tz.1, POS_LIMIT) {
        Some(v) => v,
        None => {
            return Err(DecodeError::MalformedAtomRecord {
                field: AtomField::PosZ,
                record_index: idx,
            });
        },
    };
    Ok(Atom { resnum, resname, atomname, atomnum, position: Vec3Fixed { x, y, z } })
}

/// Decode the box-vector line `[lo, hi)`.
#[verifier::loop_isolation(false)]
fn parse_box_ex(s: &[u8], lo: usize, hi: usize) -> (r: Result<BoxVectors, DecodeError>)
    requires
        lo <= hi <= s@.len(),
    ensures
        match r {
            Ok(b) => spec_parse_box(s@, lo as int, hi as int) == Ok::<BoxVectors, DecodeError>(b),
            Err(e) => spec_parse_box(s@, lo as int, hi as int) == Err::<BoxVectors, DecodeError>(
                e,
            ),
        },
{
    let a0: usize = skip_spaces_ex(s, lo, hi);
    let b0: usize = find_space_ex(s, a0, hi);
    let v0: Option<i64> = parse_fixed_ex(s, a0, b0, i64::MAX);
    let a1: usize = skip_spaces_ex(s, b0, hi);
    let b1: usize = find_space_ex(s, a1, hi);
    let v1: Option<i64> = parse_fixed_ex(s, a1, b1, i64::MAX);
    let a2: usize = skip_spaces_ex(s, b1, hi);
    let b2: usize = find_space_ex(s, a2, hi);
    let v2: Option<i64> = parse_fixed_ex(s, a2, b2, i64::MAX);
    let a3: usize = skip_spaces_ex(s, b2, hi);
    let b3: usize = find_space_ex(s, a3, hi);
    let v3: Option<i64> = parse_fixed_ex(s, a3, b3, i64::MAX);
    let a4: usize = skip_spaces_ex(s, b3, hi);
    let b4: usize = find_space_ex(s, a4, hi);
    let v4: Option<i64> = parse_fixed_ex(s, a4, b4, i64::MAX);
    let a5: usize = skip_spaces_ex(s, b4, hi);
    let b5: usize = find_space_ex(s, a5, hi);
    let v5: Option<i64> = parse_fixed_ex(s, a5, b5, i64::MAX);
    let a6: usize = skip_spaces_ex(s, b5, hi);
    let b6: usize = find_space_ex(s, a6, hi);
    let v6: Option<i64> = parse_fixed_ex(s, a6, b6, i64::MAX);
    let a7: usize = skip_spaces_ex(s, b6, hi);
    let b7: usize = find_space_ex(s, a7, hi);
    let v7: Option<i64> = parse_fixed_ex(s, a7, b7, i64::MAX);
    let a8: usize = skip_spaces_ex(s, b7, hi);
    let b8: usize = find_space_ex(s, a8, hi);
    let v8: Option<i64> = parse_fixed_ex(s, a8, b8, i64::MAX);
    let a9: usize = skip_spaces_ex(s, b8, hi);
    proof {
        assert(token_at(s@, lo as int, hi as int, 0) == (a0 as int, b0 as int));
        assert(token_at(s@, lo as int, hi as int, 1) == (a1 as int, b1 as int));
        assert(token_at(s@, lo as int, hi as int, 2) == (a2 as int, b2 as int));
        assert(token_at(s@, lo as int, hi as int, 3) == (a3 as int, b3 as int));
        assert(token_at(s@, lo as int, hi as int, 4) == (a4 as int, b4 as int));
        assert(token_at(s@, lo as int, hi as int, 5) == (a5 as int, b5 as int));
        assert(token_at(s@, lo as int, hi as int, 6) == (a6 as int, b6 as int));
        assert(token_at(s@, lo as int, hi as int, 7) == (a7 as int, b7 as int));
        assert(token_at(s@, lo as int, hi as int, 8) == (a8 as int, b8 as int));
        assert(token_at(s@, lo as int, hi as int, 9).0 == a9 as int);
    }
    let (d0, d1, d2): (i64, i64, i64) = match (v0, v1, v2) {
        (Some(x), Some(y), Some(z)) => (x, y, z),
        _ => {
            return Err(DecodeError::MalformedBoxVectors);
        },
    };
    let off_ok: bool = a8 < hi && a9 >= hi && v3.is_some() && v4.is_some() && v5.is_some()
        && v6.is_some() && v7.is_some() && v8.is_some();
    if off_ok {
        let (o3, o4, o5, o6, o7, o8): (i64, i64, i64, i64, i64, i64) = match (
            v3,
            v4,
            v5,
            v6,
            v7,
            v8,
        ) {
            (Some(c3), Some(c4), Some(c5), Some(c6), Some(c7), Some(c8)) => (
                c3,
                c4,
                c5,
                c6,
                c7,
                c8,
            ),
            _ => (0, 0, 0, 0, 0, 0),
        };
        Ok(BoxVectors {
            v1x: d0,
            v2y: d1,
            v3z: d2,
            v1y: o3,
            v1z: o4,
            v2x: o5,
            v2z: o6,
            v3x: o7,
            v3y: o8,
        })
    } else {
        Ok(BoxVectors {
            v1x: d0,
            v2y: d1,
            v3z: d2,
            v1y: 0,
            v1z: 0,
            v2x: 0,
            v2z: 0,
            v3x: 0,
            v3y: 0,
        })
    }
}

impl Structure {
    /// Decode a structure file: returns exactly the value of [`spec_decode`]
    /// on the text's bytes. On success, every coordinate magnitude is at
    /// most [`POS_LIMIT`] and the centering transform cannot overflow.
    #[verifier::loop_isolation(false)]
    #[verifier::rlimit(100)]
    pub fn from_gro(gro: &str) -> (r: Result<Structure, DecodeError>)
        ensures
            match r {
                Ok(st) => spec_decode(gro.spec_bytes()) == Ok::<StructureV, DecodeError>(st@)
                    && coords_bounded(st@.atoms, POS_LIMIT as int) && center_shift_fits(st@.atoms),
                Err(e) => spec_decode(gro.spec_bytes()) == Err::<StructureV, DecodeError>(e),
            },
    {
        let s: &[u8] = gro.as_bytes();
        let total: usize = count_lines(s);
        if total < 2 {
            return Err(DecodeError::TruncatedInput);
        }
        let tb: (usize, usize) = line_bounds_ex(s, 0);
        let tt: (usize, usize) = trim_ex(s, 0, tb.0);
        let title: Vec<u8> = copy_range(s, tt.0, tt.1);
        let p1: usize = tb.1;
        proof {
            assert(lines_from(s@, p1 as int) >= 1);
            assert((p1 as int) < s@.len());
        }
        let cb: (usize, usize) = line_bounds_ex(s, p1);
        let ct: (usize, usize) = trim_ex(s, p1, cb.0);
        proof {
            lemma_pow10_vals();
        }
        let n: usize = match parse_uint_ex(s, ct.0, ct.1, usize::MAX as u128) {
            Some(v) => v as usize,
            None => {
                return Err(DecodeError::InvalidAtomCount);
            },
        };
        if (total as u128) < (n as u128) + 3 {
            return Err(DecodeError::TruncatedInput);
        }
        let p2: usize = cb.1;
        let mut atoms: Vec<Atom> = Vec::new();
        let mut pos: usize = p2;
        let mut k: usize = 0;
        while k < n
            invariant
                k <= n,
                atoms@.len() == k,
                pos <= s@.len(),
                lines_from(s@, pos as int) == total - 2 - k,
                coords_bounded(atoms@.map_values(|a: Atom| a@), POS_LIMIT as int),
                match spec_parse_atoms(s@, pos as int, k as int, n as int) {
                    Ok(rr) => spec_parse_atoms(s@, p2 as int, 0, n as int) == Ok::<
                        (Seq<AtomV>, int),
                        DecodeError,
                    >((atoms@.map_values(|a: Atom| a@) + rr.0, rr.1)),
                    Err(e) => spec_parse_atoms(s@, p2 as int, 0, n as int) == Err::<
                        (Seq<AtomV>, int),
                        DecodeError,
                    >(e),
                },
            decreases n - k,
        {
            proof {
                assert(lines_from(s@, pos as int) >= 1);
                assert((pos as int) < s@.len());
            }
            let lb: (usize, usize) = line_bounds_ex(s, pos);
            let ghost prevm = atoms@.map_values(|a: Atom| a@);
            match parse_atom_ex(s, pos, lb.0, k) {
                Err(e) => {
                    return Err(e);
                },
                Ok(a) => {
                    atoms.push(a);
                    proof {
                        assert(atoms@.map_values(|x: Atom| x@) =~= prevm.push(a@));
                        match spec_parse_atoms(s@, lb.1 as int, k + 1, n as int) {
                            Ok(rr) => {
                                assert(prevm + (seq![a@] + rr.0) =~= prevm.push(a@) + rr.0);
                            },
                            Err(e) => {},
                        }
                    }
                    pos = lb.1;
                    k = k + 1;
                },
            }
        }
        proof {
            assert(spec_parse_atoms(s@, pos as int, n as int, n as int) == Ok::<
                (Seq<AtomV>, int),
                DecodeError,
            >((Seq::empty(), pos as int)));
            assert(atoms@.map_values(|a: Atom| a@) + Seq::<AtomV>::empty() =~= atoms@.map_values(
                |a: Atom| a@,
            ));
            assert(lines_from(s@, pos as int) >= 1);
            assert((pos as int) < s@.len());
        }
        let bb: (usize, usize) = line_bounds_ex(s, pos);
        let bv: BoxVectors = match parse_box_ex(s, pos, bb.0) {
            Ok(b) => b,
            Err(e) => {
                return Err(e);
            },
        };
        let st: Structure = Structure { title, atoms, box_vecs: bv };
        proof {
            lemma_bounded_coords_shift_fits(st@.atoms, POS_LIMIT as int);
        }
        Ok(st)
    }
}

} // verus!
