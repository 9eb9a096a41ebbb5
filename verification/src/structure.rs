//! The structure data model: one atom record per particle, and the full
//! molecular snapshot with its title and periodic box, together with the
//! geometric queries (centroid, z extents) and the in-place centering
//! transform, each proved against a sequence-level model.
//!
//! Positions are exact fixed-point values: `i64` counts of micro-nanometers
//! (see [`crate::scan::MICRO`]). The centroid divides the coordinate sums by
//! the atom count with truncation toward zero, so centering a structure
//! brings its centroid exactly to the origin.

use vstd::prelude::*;
use vstd::pervasive::VecAdditionalExecFns;
use vstd::arithmetic::div_mod::{
    lemma_basic_div, lemma_div_is_ordered, lemma_div_multiples_vanish, lemma_div_nonincreasing,
    lemma_div_pos_is_pos, lemma_fundamental_div_mod, lemma_mod_division_less_than_divisor,
};

verus! {

/// A short identifier of at most five bytes, mirroring the five-character
/// columns of the file format. Construction checks the bound; exceeding it
/// is the decoder's name-overflow error.
#[derive(Debug, Clone, PartialEq, Eq)]
pub struct Name {
    bytes: Vec<u8>,
}

impl View for Name {
    type V = Seq<u8>;

    closed spec fn view(&self) -> Seq<u8> {
        self.bytes@
    }
}

impl Name {
    /// Wrap the given bytes; fails exactly when more than five are given.
    pub fn new(bytes: Vec<u8>) -> (r: Option<Name>)
        ensures
            match r {
                Some(n) => n@ == bytes@ && bytes@.len() <= 5,
                None => bytes@.len() > 5,
            },
    {
        if bytes.len() <= 5 {
            Some(Name { bytes })
        } else {
            None
        }
    }

    /// The empty name.
    pub fn empty() -> (r: Name)
        ensures
            r@.len() == 0,
    {
        Name { bytes: Vec::new() }
    }

    pub fn len(&self) -> (r: usize)
        ensures
            r == self@.len(),
    {
        self.bytes.len()
    }

    /// A copy of the name's bytes.
    pub fn bytes(&self) -> (r: Vec<u8>)
        ensures
            r@ == self@,
    {
        let mut out: Vec<u8> = Vec::new();
        let mut i: usize = 0;
        while i < self.bytes.len()
            invariant
                i <= self.bytes@.len(),
                out@ == self.bytes@.take(i as int),
            decreases self.bytes@.len() - i,
        {
            out.push(self.bytes[i]);
            proof {
                assert(self.bytes@.take(i + 1) =~= self.bytes@.take(i as int).push(
                    self.bytes@[i as int],
                ));
            }
            i = i + 1;
        }
        proof {
            assert(self.bytes@.take(self.bytes@.len() as int) =~= self.bytes@);
        }
        out
    }
}

/// A 3D position in micro-nanometers.
#[derive(Debug, Clone, Copy, PartialEq, Eq, Structural)]
pub struct Vec3Fixed {
    pub x: i64,
    pub y: i64,
    pub z: i64,
}

/// The nine entries of the (possibly triclinic) periodic cell matrix, in
/// millionths: three diagonal terms first, then the six off-diagonal terms,
/// in the order of the file format's box-vector line.
#[derive(Debug, Clone, Copy, PartialEq, Eq, Structural)]
pub struct BoxVectors {
    pub v1x: i64,
    pub v2y: i64,
    pub v3z: i64,
    pub v1y: i64,
    pub v1z: i64,
    pub v2x: i64,
    pub v2z: i64,
    pub v3x: i64,
    pub v3y: i64,
}

/// One particle: identifiers and position, immutable once decoded except for
/// the centering translation applied through [`Structure::center_structure`].
#[derive(Debug, Clone, PartialEq, Eq)]
pub struct Atom {
    /// Residue number, unique only within its residue context.
    pub resnum: u32,
    /// Residue name, at most five bytes.
    pub resname: Name,
    /// Atom name, at most five bytes.
    pub atomname: Name,
    /// File-local one-based atom number.
    pub atomnum: u32,
    /// Position in micro-nanometers.
    pub position: Vec3Fixed,
}

/// Mathematical model of one atom record.
pub ghost struct AtomV {
    pub resnum: int,
    pub resname: Seq<u8>,
    pub atomname: Seq<u8>,
    pub atomnum: int,
    pub x: int,
    pub y: int,
    pub z: int,
}

impl View for Atom {
    type V = AtomV;

    open spec fn view(&self) -> AtomV {
        AtomV {
            resnum: self.resnum as int,
            resname: self.resname@,
            atomname: self.atomname@,
            atomnum: self.atomnum as int,
            x: self.position.x as int,
            y: self.position.y as int,
            z: self.position.z as int,
        }
    }
}

/// Mathematical model of a full structure.
pub ghost struct StructureV {
    pub title: Seq<u8>,
    pub atoms: Seq<AtomV>,
    pub box_vecs: BoxVectors,
}

/// One full molecular snapshot: title, the atom records in file order, and
/// the periodic box.
#[derive(Debug, Clone, PartialEq, Eq)]
pub struct Structure {
    /// Trimmed first line of the source file.
    pub title: Vec<u8>,
    /// Atom records, in file order; the length equals the declared count.
    pub atoms: Vec<Atom>,
    /// The periodic cell matrix.
    pub box_vecs: BoxVectors,
}

impl View for Structure {
    type V = StructureV;

    open spec fn view(&self) -> StructureV {
        StructureV {
            title: self.title@,
            atoms: self.atoms@.map_values(|a: Atom| a@),
            box_vecs: self.box_vecs,
        }
    }
}

/// Sum of a sequence of integers.
pub open spec fn seq_sum(s: Seq<int>) -> int
    decreases s.len()
{
    if s.len() == 0 {
        0
    } else {
        seq_sum(s.drop_last()) + s.last()
    }
}

/// The x coordinates of the atoms, in order.
pub open spec fn xs(atoms: Seq<AtomV>) -> Seq<int> {
    atoms.map_values(|a: AtomV| a.x)
}

pub open spec fn ys(atoms: Seq<AtomV>) -> Seq<int> {
    atoms.map_values(|a: AtomV| a.y)
}

pub open spec fn zs(atoms: Seq<AtomV>) -> Seq<int> {
    atoms.map_values(|a: AtomV| a.z)
}

/// Integer division truncating toward zero, for a positive divisor.
pub open spec fn tdiv(a: int, b: int) -> int
    recommends
        b > 0,
{
    if a >= 0 {
        a / b
    } else {
        -((-a) / b)
    }
}

/// The centroid's x component: the truncated mean of the x coordinates, and
/// zero for an empty atom sequence.
pub open spec fn spec_center_x(atoms: Seq<AtomV>) -> int {
    if atoms.len() == 0 {
        0
    } else {
        tdiv(seq_sum(xs(atoms)), atoms.len() as int)
    }
}

pub open spec fn spec_center_y(atoms: Seq<AtomV>) -> int {
    if atoms.len() == 0 {
        0
    } else {
        tdiv(seq_sum(ys(atoms)), atoms.len() as int)
    }
}

pub open spec fn spec_center_z(atoms: Seq<AtomV>) -> int {
    if atoms.len() == 0 {
        0
    } else {
        tdiv(seq_sum(zs(atoms)), atoms.len() as int)
    }
}

/// Least element of a nonempty integer sequence.
pub open spec fn seq_min(s: Seq<int>) -> int
    recommends
        s.len() > 0,
    decreases s.len(),
{
    if s.len() <= 1 {
        s[0]
    } else {
        let m = seq_min(s.drop_last());
        if s.last() < m {
            s.last()
        } else {
            m
        }
    }
}

/// Greatest element of a nonempty integer sequence.
pub open spec fn seq_max(s: Seq<int>) -> int
    recommends
        s.len() > 0,
    decreases s.len(),
{
    if s.len() <= 1 {
        s[0]
    } else {
        let m = seq_max(s.drop_last());
        if s.last() > m {
            s.last()
        } else {
            m
        }
    }
}

/// The least z coordinate, and zero for an empty atom sequence.
pub open spec fn spec_min_z(atoms: Seq<AtomV>) -> int {
    if atoms.len() == 0 {
        0
    } else {
        seq_min(zs(atoms))
    }
}

/// The greatest z coordinate, and zero for an empty atom sequence.
pub open spec fn spec_max_z(atoms: Seq<AtomV>) -> int {
    if atoms.len() == 0 {
        0
    } else {
        seq_max(zs(atoms))
    }
}

/// Subtracting the centroid from every coordinate stays within `i64`. This
/// is the machine-limit precondition of [`Structure::center_structure`]; it
/// holds of every decoded structure, and of every already-centered one.
pub open spec fn center_shift_fits(atoms: Seq<AtomV>) -> bool {
    forall|i: int|
        #![trigger atoms[i]]
        0 <= i < atoms.len() ==> {
            &&& i64::MIN <= atoms[i].x - spec_center_x(atoms) <= i64::MAX
            &&& i64::MIN <= atoms[i].y - spec_center_y(atoms) <= i64::MAX
            &&& i64::MIN <= atoms[i].z - spec_center_z(atoms) <= i64::MAX
        }
}

/// Every coordinate's magnitude is at most `b`.
pub open spec fn coords_bounded(atoms: Seq<AtomV>, b: int) -> bool {
    forall|i: int|
        #![trigger atoms[i]]
        0 <= i < atoms.len() ==> {
            &&& -b <= atoms[i].x <= b
            &&& -b <= atoms[i].y <= b
            &&& -b <= atoms[i].z <= b
        }
}

proof fn lemma_seq_sum_take_step(s: Seq<int>, i: int)
    requires
        0 <= i < s.len(),
    ensures
        seq_sum(s.take(i + 1)) == seq_sum(s.take(i)) + s[i],
{
    assert(s.take(i + 1).drop_last() =~= s.take(i));
    assert(s.take(i + 1).last() == s[i]);
}

/// A sequence whose entries lie in `[m, M]` sums to within `len * m` and
/// `len * M`.
proof fn lemma_seq_sum_bounds(s: Seq<int>, m: int, em: int)
    requires
        forall|i: int| 0 <= i < s.len() ==> m <= #[trigger] s[i] <= em,
    ensures
        s.len() * m <= seq_sum(s) <= s.len() * em,
    decreases s.len(),
{
    if s.len() == 0 {
    } else {
        lemma_seq_sum_bounds(s.drop_last(), m, em);
        assert((s.len() - 1) * m + m == s.len() * m) by (nonlinear_arith);
        assert((s.len() - 1) * em + em == s.len() * em) by (nonlinear_arith);
    }
}

/// If `a` elementwise equals `b` shifted down by `d`, the sums differ by
/// `len * d`.
proof fn lemma_seq_sum_shift(a: Seq<int>, b: Seq<int>, d: int)
    requires
        a.len() == b.len(),
        forall|i: int| 0 <= i < a.len() ==> #[trigger] a[i] == b[i] - d,
    ensures
        seq_sum(a) == seq_sum(b) - a.len() * d,
    decreases a.len(),
{
    if a.len() == 0 {
    } else {
        lemma_seq_sum_shift(a.drop_last(), b.drop_last(), d);
        assert((a.len() - 1) * d + d == a.len() * d) by (nonlinear_arith);
    }
}

/// Truncated division of a value between `n * m` and `n * em` (with
/// `m <= 0 <= em`) lies between `m` and `em`.
proof fn lemma_tdiv_in_range(a: int, n: int, m: int, em: int)
    requires
        n >= 1,
        m <= 0 <= em,
        n * m <= a <= n * em,
    ensures
        m <= tdiv(a, n) <= em,
{
    if a >= 0 {
        lemma_div_pos_is_pos(a, n);
        lemma_div_is_ordered(a, n * em, n);
        lemma_div_multiples_vanish(em, n);
        assert(n * em == em * n) by (nonlinear_arith);
    } else {
        lemma_div_pos_is_pos(-a, n);
        assert(n * (-m) == (-m) * n) by (nonlinear_arith);
        assert(-(n * m) == n * (-m)) by (nonlinear_arith);
        lemma_div_is_ordered(-a, n * (-m), n);
        lemma_div_multiples_vanish(-m, n);
    }
}

/// Subtracting `n * tdiv(a, n)` from `a` leaves a remainder whose truncated
/// quotient by `n` is zero: the heart of the exact centering law.
proof fn lemma_tdiv_shift_zero(a: int, n: int)
    requires
        n >= 1,
    ensures
        tdiv(a - n * tdiv(a, n), n) == 0,
{
    if a >= 0 {
        lemma_fundamental_div_mod(a, n);
        lemma_mod_division_less_than_divisor(a, n);
        let r = a - n * tdiv(a, n);
        assert(r == a % n);
        lemma_basic_div(r, n);
    } else {
        lemma_fundamental_div_mod(-a, n);
        lemma_mod_division_less_than_divisor(-a, n);
        let r2 = (-a) % n;
        assert(a - n * tdiv(a, n) == -r2) by {
            assert(n * -((-a) / n) == -(n * ((-a) / n))) by (nonlinear_arith);
        }
        lemma_basic_div(r2, n);
        if r2 == 0 {
        } else {
            assert(tdiv(-r2, n) == -(r2 / n));
        }
    }
}

/// Least-element facts: the minimum bounds every entry and is attained.
proof fn lemma_seq_min_facts(s: Seq<int>)
    requires
        s.len() > 0,
    ensures
        forall|i: int| 0 <= i < s.len() ==> seq_min(s) <= #[trigger] s[i],
        exists|i: int| 0 <= i < s.len() && seq_min(s) == s[i],
    decreases s.len(),
{
    if s.len() == 1 {
        assert(seq_min(s) == s[0]);
    } else {
        lemma_seq_min_facts(s.drop_last());
        assert(forall|i: int| 0 <= i < s.len() - 1 ==> s.drop_last()[i] == #[trigger] s[i]);
        let j = choose|j: int| 0 <= j < s.len() - 1 && seq_min(s.drop_last()) == s.drop_last()[j];
        if s.last() < seq_min(s.drop_last()) {
            assert(seq_min(s) == s[s.len() - 1]);
        } else {
            assert(seq_min(s) == s[j]);
        }
    }
}

/// Greatest-element facts: the maximum bounds every entry and is attained.
proof fn lemma_seq_max_facts(s: Seq<int>)
    requires
        s.len() > 0,
    ensures
        forall|i: int| 0 <= i < s.len() ==> #[trigger] s[i] <= seq_max(s),
        exists|i: int| 0 <= i < s.len() && seq_max(s) == s[i],
    decreases s.len(),
{
    if s.len() == 1 {
        assert(seq_max(s) == s[0]);
    } else {
        lemma_seq_max_facts(s.drop_last());
        assert(forall|i: int| 0 <= i < s.len() - 1 ==> s.drop_last()[i] == #[trigger] s[i]);
        let j = choose|j: int| 0 <= j < s.len() - 1 && seq_max(s.drop_last()) == s.drop_last()[j];
        if s.last() > seq_max(s.drop_last()) {
            assert(seq_max(s) == s[s.len() - 1]);
        } else {
            assert(seq_max(s) == s[j]);
        }
    }
}

/// Every atom's z coordinate lies between the structure's z extents.
pub proof fn lemma_z_within_extents(atoms: Seq<AtomV>)
    ensures
        forall|i: int|
            0 <= i < atoms.len() ==> spec_min_z(atoms) <= #[trigger] atoms[i].z <= spec_max_z(
                atoms,
            ),
{
    if atoms.len() > 0 {
        lemma_seq_min_facts(zs(atoms));
        lemma_seq_max_facts(zs(atoms));
        assert(forall|i: int| 0 <= i < atoms.len() ==> zs(atoms)[i] == #[trigger] atoms[i].z);
    }
}

/// Coordinates bounded by `b` with `2 * b` within `i64` keep the centering
/// subtraction in range: the centroid itself then lies within `[-b, b]`.
pub proof fn lemma_bounded_coords_shift_fits(atoms: Seq<AtomV>, b: int)
    requires
        0 <= b,
        2 * b <= i64::MAX as int,
        coords_bounded(atoms, b),
    ensures
        center_shift_fits(atoms),
{
    if atoms.len() > 0 {
        let n = atoms.len() as int;
        assert(forall|i: int| 0 <= i < n ==> -b <= #[trigger] xs(atoms)[i] <= b);
        assert(forall|i: int| 0 <= i < n ==> -b <= #[trigger] ys(atoms)[i] <= b);
        assert(forall|i: int| 0 <= i < n ==> -b <= #[trigger] zs(atoms)[i] <= b);
        lemma_seq_sum_bounds(xs(atoms), -b, b);
        lemma_seq_sum_bounds(ys(atoms), -b, b);
        lemma_seq_sum_bounds(zs(atoms), -b, b);
        lemma_tdiv_in_range(seq_sum(xs(atoms)), n, -b, b);
        lemma_tdiv_in_range(seq_sum(ys(atoms)), n, -b, b);
        lemma_tdiv_in_range(seq_sum(zs(atoms)), n, -b, b);
    }
}

/// Truncating division of an `i128` by a positive count.
#[verifier::loop_isolation(false)]
fn tdiv_i128(a: i128, n: usize) -> (q: i128)
    requires
        n > 0,
        a != i128::MIN,
    ensures
        q as int == tdiv(a as int, n as int),
{
    if a >= 0 {
        let qu: u128 = (a as u128) / (n as u128);
        proof {
            lemma_div_pos_is_pos(a as int, n as int);
            lemma_div_nonincreasing(a as int, n as int);
        }
        qu as i128
    } else {
        let m: u128 = (-a) as u128;
        let qu: u128 = m / (n as u128);
        proof {
            lemma_div_pos_is_pos(m as int, n as int);
            lemma_div_nonincreasing(m as int, n as int);
        }
        -(qu as i128)
    }
}

impl Structure {
    /// The number of atoms.
    pub fn n_atoms(&self) -> (r: usize)
        ensures
            r == self@.atoms.len(),
    {
        self.atoms.len()
    }

    /// The unweighted mean position of all atoms (truncated toward zero in
    /// each component), and the zero vector when there are no atoms.
    #[verifier::loop_isolation(false)]
    pub fn center(&self) -> (c: Vec3Fixed)
        ensures
            c.x as int == spec_center_x(self@.atoms),
            c.y as int == spec_center_y(self@.atoms),
            c.z as int == spec_center_z(self@.atoms),
            self@.atoms.len() == 0 ==> c == (Vec3Fixed { x: 0, y: 0, z: 0 }),
    {
        let n: usize = self.atoms.len();
        if n == 0 {
            return Vec3Fixed { x: 0, y: 0, z: 0 };
        }
        let ghost av = self@.atoms;
        let mut sx: i128 = 0;
        let mut sy: i128 = 0;
        let mut sz: i128 = 0;
        let mut i: usize = 0;
        while i < n
            invariant
                i <= n,
                n == av.len(),
                sx as int == seq_sum(xs(av).take(i as int)),
                sy as int == seq_sum(ys(av).take(i as int)),
                sz as int == seq_sum(zs(av).take(i as int)),
                -(i as int) * 0x8000_0000_0000_0000 <= sx as int,
                sx as int <= (i as int) * 0x7fff_ffff_ffff_ffff,
                -(i as int) * 0x8000_0000_0000_0000 <= sy as int,
                sy as int <= (i as int) * 0x7fff_ffff_ffff_ffff,
                -(i as int) * 0x8000_0000_0000_0000 <= sz as int,
                sz as int <= (i as int) * 0x7fff_ffff_ffff_ffff,
            decreases n - i,
        {
            let p: Vec3Fixed = self.atoms[i].position;
            proof {
                assert(av[i as int] == self.atoms@[i as int]@);
                lemma_seq_sum_take_step(xs(av), i as int);
                lemma_seq_sum_take_step(ys(av), i as int);
                lemma_seq_sum_take_step(zs(av), i as int);
                assert((i as int + 1) * 0x8000_0000_0000_0000 == (i as int)
                    * 0x8000_0000_0000_0000 + 0x8000_0000_0000_0000) by (nonlinear_arith);
                assert((i as int + 1) * 0x7fff_ffff_ffff_ffff == (i as int)
                    * 0x7fff_ffff_ffff_ffff + 0x7fff_ffff_ffff_ffff) by (nonlinear_arith);
            }
            sx = sx + (p.x as i128);
            sy = sy + (p.y as i128);
            sz = sz + (p.z as i128);
            i = i + 1;
        }
        proof {
            assert(xs(av).take(n as int) =~= xs(av));
            assert(ys(av).take(n as int) =~= ys(av));
            assert(zs(av).take(n as int) =~= zs(av));
            lemma_tdiv_in_range(sx as int, n as int, -0x8000_0000_0000_0000, 0x7fff_ffff_ffff_ffff);
            lemma_tdiv_in_range(sy as int, n as int, -0x8000_0000_0000_0000, 0x7fff_ffff_ffff_ffff);
            lemma_tdiv_in_range(sz as int, n as int, -0x8000_0000_0000_0000, 0x7fff_ffff_ffff_ffff);
        }
        let cx: i128 = tdiv_i128(sx, n);
        let cy: i128 = tdiv_i128(sy, n);
        let cz: i128 = tdiv_i128(sz, n);
        Vec3Fixed { x: cx as i64, y: cy as i64, z: cz as i64 }
    }

    /// Least z coordinate over all atoms; zero when there are none.
    #[verifier::loop_isolation(false)]
    pub fn min_z(&self) -> (r: i64)
        ensures
            r as int == spec_min_z(self@.atoms),
            forall|i: int| 0 <= i < self@.atoms.len() ==> r as int <= #[trigger] self@.atoms[i].z,
            self@.atoms.len() > 0 ==> exists|i: int|
                0 <= i < self@.atoms.len() && r as int == #[trigger] self@.atoms[i].z,
            self@.atoms.len() == 0 ==> r == 0,
    {
        let n: usize = self.atoms.len();
        if n == 0 {
            return 0;
        }
        let ghost av = self@.atoms;
        let mut m: i64 = self.atoms[0].position.z;
        proof {
            assert(av[0] == self.atoms@[0]@);
            assert(zs(av).take(1) =~= seq![av[0].z]);
        }
        let mut i: usize = 1;
        while i < n
            invariant
                1 <= i <= n,
                n == av.len(),
                m as int == seq_min(zs(av).take(i as int)),
            decreases n - i,
        {
            let z: i64 = self.atoms[i].position.z;
            proof {
                assert(av[i as int] == self.atoms@[i as int]@);
                assert(zs(av).take(i + 1).drop_last() =~= zs(av).take(i as int));
                assert(zs(av).take(i + 1).last() == av[i as int].z);
            }
            if z < m {
                m = z;
            }
            i = i + 1;
        }
        proof {
            assert(zs(av).take(n as int) =~= zs(av));
            lemma_seq_min_facts(zs(av));
            assert(forall|i: int| 0 <= i < av.len() ==> zs(av)[i] == #[trigger] av[i].z);
        }
        m
    }

    /// Greatest z coordinate over all atoms; zero when there are none.
    #[verifier::loop_isolation(false)]
    pub fn max_z(&self) -> (r: i64)
        ensures
            r as int == spec_max_z(self@.atoms),
            forall|i: int| 0 <= i < self@.atoms.len() ==> #[trigger] self@.atoms[i].z <= r as int,
            self@.atoms.len() > 0 ==> exists|i: int|
                0 <= i < self@.atoms.len() && r as int == #[trigger] self@.atoms[i].z,
            self@.atoms.len() == 0 ==> r == 0,
    {
        let n: usize = self.atoms.len();
        if n == 0 {
            return 0;
        }
        let ghost av = self@.atoms;
        let mut m: i64 = self.atoms[0].position.z;
        proof {
            assert(av[0] == self.atoms@[0]@);
            assert(zs(av).take(1) =~= seq![av[0].z]);
        }
        let mut i: usize = 1;
        while i < n
            invariant
                1 <= i <= n,
                n == av.len(),
                m as int == seq_max(zs(av).take(i as int)),
            decreases n - i,
        {
            let z: i64 = self.atoms[i].position.z;
            proof {
                assert(av[i as int] == self.atoms@[i as int]@);
                assert(zs(av).take(i + 1).drop_last() =~= zs(av).take(i as int));
                assert(zs(av).take(i + 1).last() == av[i as int].z);
            }
            if z > m {
                m = z;
            }
            i = i + 1;
        }
        proof {
            assert(zs(av).take(n as int) =~= zs(av));
            lemma_seq_max_facts(zs(av));
            assert(forall|i: int| 0 <= i < av.len() ==> zs(av)[i] == #[trigger] av[i].z);
        }
        m
    }

    /// Translate every atom by the negated centroid, in place. Afterwards the
    /// centroid is exactly the origin; identifiers, title, and box are kept.
    #[verifier::loop_isolation(false)]
    pub fn center_structure(&mut self)
        requires
            center_shift_fits(old(self)@.atoms),
        ensures
            final(self)@.title == old(self)@.title,
            final(self)@.box_vecs == old(self)@.box_vecs,
            final(self)@.atoms.len() == old(self)@.atoms.len(),
            forall|i: int|
                #![trigger final(self)@.atoms[i]]
                0 <= i < old(self)@.atoms.len() ==> final(self)@.atoms[i] == (AtomV {
                    x: old(self)@.atoms[i].x - spec_center_x(old(self)@.atoms),
                    y: old(self)@.atoms[i].y - spec_center_y(old(self)@.atoms),
                    z: old(self)@.atoms[i].z - spec_center_z(old(self)@.atoms),
                    ..old(self)@.atoms[i]
                }),
            spec_center_x(final(self)@.atoms) == 0,
            spec_center_y(final(self)@.atoms) == 0,
            spec_center_z(final(self)@.atoms) == 0,
    {
        let ghost oldatoms = old(self)@.atoms;
        let c: Vec3Fixed = self.center();
        let n: usize = self.atoms.len();
        let mut tmp: Atom = Atom {
            resnum: 0,
            resname: Name::empty(),
            atomname: Name::empty(),
            atomnum: 0,
            position: Vec3Fixed { x: 0, y: 0, z: 0 },
        };
        let mut i: usize = 0;
        while i < n
            invariant
                i <= n,
                n == self.atoms@.len(),
                self.atoms@.len() == oldatoms.len(),
                self.title@ == old(self).title@,
                self.box_vecs == old(self).box_vecs,
                forall|j: int| i <= j < n ==> self.atoms@[j] == #[trigger] old(self).atoms@[j],
                forall|j: int|
                    #![trigger self.atoms@[j]]
                    0 <= j < i ==> self.atoms@[j]@ == (AtomV {
                        x: oldatoms[j].x - c.x as int,
                        y: oldatoms[j].y - c.y as int,
                        z: oldatoms[j].z - c.z as int,
                        ..oldatoms[j]
                    }),
            decreases n - i,
        {
            proof {
                assert(oldatoms[i as int] == old(self).atoms@[i as int]@);
            }
            self.atoms.set_and_swap(i, &mut tmp);
            let nx: i64 = tmp.position.x - c.x;
            let ny: i64 = tmp.position.y - c.y;
            let nz: i64 = tmp.position.z - c.z;
            tmp.position.x = nx;
            tmp.position.y = ny;
            tmp.position.z = nz;
            self.atoms.set_and_swap(i, &mut tmp);
            i = i + 1;
        }
        proof {
            let newatoms = self@.atoms;
            assert(forall|j: int|
                0 <= j < n ==> #[trigger] newatoms[j] == self.atoms@[j]@);
            assert(forall|j: int| 0 <= j < n ==> #[trigger] xs(newatoms)[j] == xs(oldatoms)[j] - c.x as int);
            assert(forall|j: int| 0 <= j < n ==> #[trigger] ys(newatoms)[j] == ys(oldatoms)[j] - c.y as int);
            assert(forall|j: int| 0 <= j < n ==> #[trigger] zs(newatoms)[j] == zs(oldatoms)[j] - c.z as int);
            lemma_seq_sum_shift(xs(newatoms), xs(oldatoms), c.x as int);
            lemma_seq_sum_shift(ys(newatoms), ys(oldatoms), c.y as int);
            lemma_seq_sum_shift(zs(newatoms), zs(oldatoms), c.z as int);
            if n > 0 {
                lemma_tdiv_shift_zero(seq_sum(xs(oldatoms)), n as int);
                lemma_tdiv_shift_zero(seq_sum(ys(oldatoms)), n as int);
                lemma_tdiv_shift_zero(seq_sum(zs(oldatoms)), n as int);
            }
        }
    }
}

} // verus!
