use vstd::prelude::*;
use crate::beagle_math::scalar::Scalar;
use crate::beagle_math::vector::Vector3;
use crate::beagle_math::vector::Vector4;

verus! {

/// The entries of `m` with rows and columns exchanged: the entry at
/// `4 * y + x` of the result is the entry at `4 * x + y` of `m`.
pub open spec fn column_major(m: Seq<Scalar>) -> Seq<Scalar> {
    Seq::new(16, |i: int| m[4 * (i % 4) + i / 4])
}

/// Row `y` of the 16 entries `m`, from left to right.
pub open spec fn row_of(m: Seq<Scalar>, y: int) -> Vector4 {
    Vector4 { x: m[4 * y], y: m[4 * y + 1], z: m[4 * y + 2], w: m[4 * y + 3] }
}

/// Column `x` of the 16 entries `m`, from top to bottom.
pub open spec fn column_of(m: Seq<Scalar>, x: int) -> Vector4 {
    Vector4 { x: m[x], y: m[x + 4], z: m[x + 8], w: m[x + 12] }
}

/// For each entry of the product of `a` and `b`, the row of `a` and the
/// column of `b` whose dot product it is: the entry in column `x` of row `y`
/// pairs row `y` of `a` with column `x` of `b`.
pub open spec fn product_operand_entries(a: Seq<Scalar>, b: Seq<Scalar>) -> Seq<
    (Vector4, Vector4),
> {
    Seq::new(16, |i: int| (row_of(a, i / 4), column_of(b, i % 4)))
}

/// The entries of the identity: `1.0` on the main diagonal, `0.0` elsewhere.
pub open spec fn identity_entries() -> Seq<Scalar> {
    let i = Scalar::spec_one();
    let o = Scalar::spec_zero();
    seq![i, o, o, o, o, i, o, o, o, o, i, o, o, o, o, i]
}

/// The entries of the translation by `pos`. A point is a row vector that is
/// multiplied from the left, so the offsets stand in the last row.
pub open spec fn translation_entries(pos: Vector3) -> Seq<Scalar> {
    let i = Scalar::spec_one();
    let o = Scalar::spec_zero();
    seq![i, o, o, o, o, i, o, o, o, o, i, o, pos.x, pos.y, pos.z, i]
}

/// The entries of the scaling by `s` along the three axes.
pub open spec fn scale_entries(s: Vector3) -> Seq<Scalar> {
    let i = Scalar::spec_one();
    let o = Scalar::spec_zero();
    seq![s.x, o, o, o, o, s.y, o, o, o, o, s.z, o, o, o, o, i]
}

/// The entries of the rotation about the x axis by the angle whose cosine
/// and sine are `cos` and `sin`. The row vector `(0, 1, 0, 0)` times this
/// matrix is `(0, cos, sin, 0)`.
pub open spec fn rotation_x_entries(cos: Scalar, sin: Scalar) -> Seq<Scalar> {
    let i = Scalar::spec_one();
    let o = Scalar::spec_zero();
    seq![i, o, o, o, o, cos, sin, o, o, sin.spec_negated(), cos, o, o, o, o, i]
}

/// The entries of the rotation about the y axis by the angle whose cosine
/// and sine are `cos` and `sin`. The row vector `(0, 0, 1, 0)` times this
/// matrix is `(sin, 0, cos, 0)`.
pub open spec fn rotation_y_entries(cos: Scalar, sin: Scalar) -> Seq<Scalar> {
    let i = Scalar::spec_one();
    let o = Scalar::spec_zero();
    seq![cos, o, sin.spec_negated(), o, o, i, o, o, sin, o, cos, o, o, o, o, i]
}

/// The entries of the rotation about the z axis by the angle whose cosine
/// and sine are `cos` and `sin`. The row vector `(1, 0, 0, 0)` times this
/// matrix is `(cos, sin, 0, 0)`.
pub open spec fn rotation_z_entries(cos: Scalar, sin: Scalar) -> Seq<Scalar> {
    let i = Scalar::spec_one();
    let o = Scalar::spec_zero();
    seq![cos, sin, o, o, sin.spec_negated(), cos, o, o, o, o, i, o, o, o, o, i]
}

/// The entries of the rotation whose three rows are `r`, row after row. The
/// last row and the last column are `(0, 0, 0, 1)`: nothing is moved.
pub open spec fn rotation_entries(r: Seq<Scalar>) -> Seq<Scalar> {
    let i = Scalar::spec_one();
    let o = Scalar::spec_zero();
    seq![r[0], r[1], r[2], o, r[3], r[4], r[5], o, r[6], r[7], r[8], o, o, o, o, i]
}

/// The entries of the perspective projection with the horizontal scale
/// `x_scale`, the vertical scale `y_scale`, the depth scale `q` and the depth
/// offset `depth_offset`.
pub open spec fn projection_entries(
    x_scale: Scalar,
    y_scale: Scalar,
    q: Scalar,
    depth_offset: Scalar,
) -> Seq<Scalar> {
    let i = Scalar::spec_one();
    let o = Scalar::spec_zero();
    seq![x_scale, o, o, o, o, y_scale, o, o, o, o, q, i, o, o, depth_offset, o]
}

/// A 4x4 matrix of scalars in row-major order: the entry in column `x` of row
/// `y` is entry `x + 4 * y` of its view, which always has 16 entries.
#[derive(Clone, Copy, Debug)]
pub struct Mat4 {
    matrix: [Scalar; 16],
}

impl View for Mat4 {
    type V = Seq<Scalar>;

    closed spec fn view(&self) -> Seq<Scalar> {
        self.matrix@
    }
}

impl Mat4 {
    /// A matrix has 16 entries.
    pub proof fn lemma_sixteen_entries(self)
        ensures
            self@.len() == 16,
    {
    }

    /// The matrix with the given entries, row after row.
    pub fn new(matrix: [Scalar; 16]) -> (r: Mat4)
        ensures
            r@ == matrix@,
    {
        Mat4 { matrix }
    }

    /// The entry in column `x` of row `y`.
    pub fn get(&self, x: i32, y: i32) -> (r: Scalar)
        requires
            0 <= x < 4,
            0 <= y < 4,
        ensures
            r == self@[x + 4 * y],
    {
        let index: usize = (x + (4 * y)) as usize;
        self.matrix[index]
    }

    /// Row `y`, from left to right.
    pub fn row(&self, y: i32) -> (r: Vector4)
        requires
            0 <= y < 4,
        ensures
            r == row_of(self@, y as int),
    {
        Vector4::new(self.get(0, y), self.get(1, y), self.get(2, y), self.get(3, y))
    }

    /// Column `x`, from top to bottom.
    pub fn column(&self, x: i32) -> (r: Vector4)
        requires
            0 <= x < 4,
        ensures
            r == column_of(self@, x as int),
    {
        Vector4::new(self.get(x, 0), self.get(x, 1), self.get(x, 2), self.get(x, 3))
    }

    /// The operands of the product of `self` and `mat`, entry by entry: entry
    /// `4 * y + x` of the product is the dot product of row `y` of `self` and
    /// column `x` of `mat`, and these are the pair at `4 * y + x`.
    pub fn product_operands(&self, mat: &Mat4) -> (r: [(Vector4, Vector4); 16])
        ensures
            r@ == product_operand_entries(self@, mat@),
    {
        let r0 = self.row(0);
        let r1 = self.row(1);
        let r2 = self.row(2);
        let r3 = self.row(3);
        let c0 = mat.column(0);
        let c1 = mat.column(1);
        let c2 = mat.column(2);
        let c3 = mat.column(3);
        let r = [
            (r0, c0),
            (r0, c1),
            (r0, c2),
            (r0, c3),
            (r1, c0),
            (r1, c1),
            (r1, c2),
            (r1, c3),
            (r2, c0),
            (r2, c1),
            (r2, c2),
            (r2, c3),
            (r3, c0),
            (r3, c1),
            (r3, c2),
            (r3, c3),
        ];
        assert(r@ =~= product_operand_entries(self@, mat@));
        r
    }

    /// The identity.
    pub fn identity() -> (r: Mat4)
        ensures
            r@ == identity_entries(),
    {
        let i = Scalar::one();
        let o = Scalar::zero();
        let r = Mat4 { matrix: [i, o, o, o, o, i, o, o, o, o, i, o, o, o, o, i] };
        assert(r@ =~= identity_entries());
        r
    }

    /// The translation by `pos`.
    pub fn translate(pos: &Vector3) -> (r: Mat4)
        ensures
            r@ == translation_entries(*pos),
    {
        let i = Scalar::one();
        let o = Scalar::zero();
        let r = Mat4 { matrix: [i, o, o, o, o, i, o, o, o, o, i, o, pos.x, pos.y, pos.z, i] };
        assert(r@ =~= translation_entries(*pos));
        r
    }

    /// The scaling by `scale` along the three axes.
    pub fn scale(scale: &Vector3) -> (r: Mat4)
        ensures
            r@ == scale_entries(*scale),
    {
        let i = Scalar::one();
        let o = Scalar::zero();
        let r = Mat4 {
            matrix: [scale.x, o, o, o, o, scale.y, o, o, o, o, scale.z, o, o, o, o, i],
        };
        assert(r@ =~= scale_entries(*scale));
        r
    }

    /// The rotation about the x axis by the angle whose cosine and sine are
    /// `cos` and `sin`.
    pub fn rotate_x(cos: Scalar, sin: Scalar) -> (r: Mat4)
        ensures
            r@ == rotation_x_entries(cos, sin),
    {
        let i = Scalar::one();
        let o = Scalar::zero();
        let r = Mat4 { matrix: [i, o, o, o, o, cos, sin, o, o, sin.negated(), cos, o, o, o, o, i] };
        assert(r@ =~= rotation_x_entries(cos, sin));
        r
    }

    /// The rotation about the y axis by the angle whose cosine and sine are
    /// `cos` and `sin`.
    pub fn rotate_y(cos: Scalar, sin: Scalar) -> (r: Mat4)
        ensures
            r@ == rotation_y_entries(cos, sin),
    {
        let i = Scalar::one();
        let o = Scalar::zero();
        let r = Mat4 { matrix: [cos, o, sin.negated(), o, o, i, o, o, sin, o, cos, o, o, o, o, i] };
        assert(r@ =~= rotation_y_entries(cos, sin));
        r
    }

    /// The rotation about the z axis by the angle whose cosine and sine are
    /// `cos` and `sin`.
    pub fn rotate_z(cos: Scalar, sin: Scalar) -> (r: Mat4)
        ensures
            r@ == rotation_z_entries(cos, sin),
    {
        let i = Scalar::one();
        let o = Scalar::zero();
        let r = Mat4 { matrix: [cos, sin, o, o, sin.negated(), cos, o, o, o, o, i, o, o, o, o, i] };
        assert(r@ =~= rotation_z_entries(cos, sin));
        r
    }

    /// The rotation whose three rows are `rows`, row after row: the nine
    /// entries stand in the upper left, and nothing is moved.
    pub fn rotation(rows: [Scalar; 9]) -> (r: Mat4)
        ensures
            r@ == rotation_entries(rows@),
    {
        let i = Scalar::one();
        let o = Scalar::zero();
        let r = Mat4 {
            matrix: [
                rows[0],
                rows[1],
                rows[2],
                o,
                rows[3],
                rows[4],
                rows[5],
                o,
                rows[6],
                rows[7],
                rows[8],
                o,
                o,
                o,
                o,
                i,
            ],
        };
        assert(r@ =~= rotation_entries(rows@));
        r
    }

    /// The matrix with rows and columns exchanged; `self` stays as it is.
    pub fn transposed(&self) -> (r: Mat4)
        ensures
            r@ == column_major(self@),
    {
        Mat4 { matrix: self.get_column_major_value() }
    }

    /// Exchanges rows and columns in place.
    pub fn tranpose(&mut self)
        ensures
            final(self)@ == column_major(old(self)@),
    {
        self.matrix = self.get_column_major_value();
    }

    /// The perspective projection with the given scales and depth offset.
    ///
    /// For a vertical field of view `fov`, a viewport of `width` by `height`
    /// and the clip planes `near` and `far`, the caller computes
    /// `y_scale = 1 / tan(fov / 2)`, `x_scale = y_scale / (width / height)`,
    /// `q = far / (far - near)` and `depth_offset = -q * near`.
    pub fn projection(x_scale: Scalar, y_scale: Scalar, q: Scalar, depth_offset: Scalar) -> (r:
        Mat4)
        ensures
            r@ == projection_entries(x_scale, y_scale, q, depth_offset),
    {
        let i = Scalar::one();
        let o = Scalar::zero();
        let r = Mat4 {
            matrix: [x_scale, o, o, o, o, y_scale, o, o, o, o, q, i, o, o, depth_offset, o],
        };
        assert(r@ =~= projection_entries(x_scale, y_scale, q, depth_offset));
        r
    }

    /// The entries, row after row.
    pub fn get_value(&self) -> (r: [Scalar; 16])
        ensures
            r@ == self@,
    {
        self.matrix
    }

    /// The entries, column after column.
    pub fn get_column_major_value(&self) -> (r: [Scalar; 16])
        ensures
            r@ == column_major(self@),
    {
        let m = &self.matrix;
        let r = [
            m[0],
            m[4],
            m[8],
            m[12],
            m[1],
            m[5],
            m[9],
            m[13],
            m[2],
            m[6],
            m[10],
            m[14],
            m[3],
            m[7],
            m[11],
            m[15],
        ];
        assert(r@ =~= column_major(self@));
        r
    }
}

/// Exchanging rows and columns twice gives the entries back.
pub proof fn lemma_column_major_twice(m: Seq<Scalar>)
    requires
        m.len() == 16,
    ensures
        column_major(column_major(m)) == m,
{
    assert(column_major(column_major(m)) =~= m);
}

/// Reading a matrix column after column, and what comes out column after
/// column again, gives the entries of the matrix back.
pub proof fn lemma_column_major_round_trip(m: Mat4)
    ensures
        column_major(column_major(m@)) == m@,
{
    m.lemma_sixteen_entries();
    lemma_column_major_twice(m@);
}

/// The rows of the exchanged entries are the columns of the entries, and the
/// columns are the rows.
pub proof fn lemma_column_major_rows(m: Seq<Scalar>, k: int)
    requires
        m.len() == 16,
        0 <= k < 4,
    ensures
        row_of(column_major(m), k) == column_of(m, k),
        column_of(column_major(m), k) == row_of(m, k),
{
}

/// The product of the exchanged matrices, taken the other way round, is the
/// exchanged product as far as its operands go: the entry in column `y` of
/// row `x` pairs the column and the row that the entry in column `x` of row
/// `y` of the product of `a` and `b` pairs.
pub proof fn lemma_product_operands_exchanged(a: Seq<Scalar>, b: Seq<Scalar>, x: int, y: int)
    requires
        a.len() == 16,
        b.len() == 16,
        0 <= x < 4,
        0 <= y < 4,
    ensures
        product_operand_entries(column_major(b), column_major(a))[4 * x + y].0
            == product_operand_entries(a, b)[4 * y + x].1,
        product_operand_entries(column_major(b), column_major(a))[4 * x + y].1
            == product_operand_entries(a, b)[4 * y + x].0,
{
    lemma_column_major_rows(a, y);
    lemma_column_major_rows(b, x);
}

/// The rotations about the three axes follow one convention: the rotation
/// about an axis keeps that axis and turns the next axis towards the one after
/// it, in the cyclic order x, y, z.
pub proof fn lemma_axis_rotations(cos: Scalar, sin: Scalar)
    ensures
        rotation_x_entries(cos, sin) == rotation_entries(
            seq![
                Scalar::spec_one(),
                Scalar::spec_zero(),
                Scalar::spec_zero(),
                Scalar::spec_zero(),
                cos,
                sin,
                Scalar::spec_zero(),
                sin.spec_negated(),
                cos,
            ],
        ),
        rotation_y_entries(cos, sin) == rotation_entries(
            seq![
                cos,
                Scalar::spec_zero(),
                sin.spec_negated(),
                Scalar::spec_zero(),
                Scalar::spec_one(),
                Scalar::spec_zero(),
                sin,
                Scalar::spec_zero(),
                cos,
            ],
        ),
        rotation_z_entries(cos, sin) == rotation_entries(
            seq![
                cos,
                sin,
                Scalar::spec_zero(),
                sin.spec_negated(),
                cos,
                Scalar::spec_zero(),
                Scalar::spec_zero(),
                Scalar::spec_zero(),
                Scalar::spec_one(),
            ],
        ),
{
    assert(rotation_x_entries(cos, sin) =~= rotation_entries(
        seq![
            Scalar::spec_one(),
            Scalar::spec_zero(),
            Scalar::spec_zero(),
            Scalar::spec_zero(),
            cos,
            sin,
            Scalar::spec_zero(),
            sin.spec_negated(),
            cos,
        ],
    ));
    assert(rotation_y_entries(cos, sin) =~= rotation_entries(
        seq![
            cos,
            Scalar::spec_zero(),
            sin.spec_negated(),
            Scalar::spec_zero(),
            Scalar::spec_one(),
            Scalar::spec_zero(),
            sin,
            Scalar::spec_zero(),
            cos,
        ],
    ));
    assert(rotation_z_entries(cos, sin) =~= rotation_entries(
        seq![
            cos,
            sin,
            Scalar::spec_zero(),
            sin.spec_negated(),
            cos,
            Scalar::spec_zero(),
            Scalar::spec_zero(),
            Scalar::spec_zero(),
            Scalar::spec_one(),
        ],
    ));
}

/// The translation by the zero vector is the identity.
pub proof fn lemma_translation_by_zero()
    ensures
        translation_entries(Vector3::spec_zero()) == identity_entries(),
{
}

/// The scaling by `1.0` along each axis is the identity.
pub proof fn lemma_scale_by_one()
    ensures
        scale_entries(
            Vector3 { x: Scalar::spec_one(), y: Scalar::spec_one(), z: Scalar::spec_one() },
        ) == identity_entries(),
{
}

} // verus!
