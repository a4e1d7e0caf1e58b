use beagle::beagle_math::Mat4;
use beagle::beagle_math::Scalar;
use beagle::beagle_math::Vector2;
use beagle::beagle_math::Vector3;
use beagle::beagle_math::Vector4;

fn s(value: f32) -> Scalar {
    Scalar::from_bits(value.to_bits())
}

fn f(value: Scalar) -> f32 {
    f32::from_bits(value.to_bits())
}

fn scalars(values: [f32; 16]) -> [Scalar; 16] {
    let mut out = [Scalar::zero(); 16];
    for i in 0..16 {
        out[i] = s(values[i]);
    }
    out
}

fn floats(values: [Scalar; 16]) -> [f32; 16] {
    let mut out = [0.0f32; 16];
    for i in 0..16 {
        out[i] = f(values[i]);
    }
    out
}

fn dot(a: &Vector4, b: &Vector4) -> f32 {
    f(a.x) * f(b.x) + f(a.y) * f(b.y) + f(a.z) * f(b.z) + f(a.w) * f(b.w)
}

fn product(a: &Mat4, b: &Mat4) -> Mat4 {
    Mat4::new(a.product_operands(b).map(|(row, column)| s(dot(&row, &column))))
}

#[test]
fn tmp_quick_tester() {
    let mat_a = Mat4::new(scalars([
        1.0, 8.0, 2.0, 3.0,
        2.0, 1.0, 1.0, 1.0,
        3.0, 2.0, 4.0, 3.0,
        1.0, 9.0, 4.0, 3.0,
    ]));

    let mat_b = Mat4::new(scalars([
        8.0, 4.0, 3.0, 2.0,
        1.0, 1.0, 2.0, 2.0,
        3.0, 2.0, 1.0, 1.0,
        1.0, 2.0, 3.0, 4.0,
    ]));

    let result = product(&mat_a, &mat_b);
    assert_eq!(
        floats(result.get_value()),
        [
            25.0, 22.0, 30.0, 32.0,
            21.0, 13.0, 12.0, 11.0,
            41.0, 28.0, 26.0, 26.0,
            32.0, 27.0, 34.0, 36.0,
        ]
    );

    let mut rofl = Mat4::new(scalars([
        5.0, 6.0, 1.0, 2.0,
        3.0, 0.0, 12.0, 2.0,
        48.0, 38.0, 2.0, 9.0,
        8.0, 5.0, 4.0, 44.0,
    ]));

    rofl.tranpose();

    println!("{:?}", rofl);
    assert_eq!(
        floats(rofl.get_value()),
        [
            5.0, 3.0, 48.0, 8.0,
            6.0, 0.0, 38.0, 5.0,
            1.0, 12.0, 2.0, 4.0,
            2.0, 2.0, 9.0, 44.0,
        ]
    );
}

#[test]
fn should_print_matrix_debug_output_when_using_debug_formatter() {
    let my_matrix = Mat4::identity();

    println!("{:?}", my_matrix);

    assert!(true);
}

#[test]
fn should_return_correct_identity_matrix_when_constructing_identity_matrix() {
    // Arrange
    let expected_matrix: [f32; 16] = [1.0, 0.0, 0.0, 0.0,
                                        0.0, 1.0, 0.0, 0.0,
                                        0.0, 0.0, 1.0, 0.0,
                                        0.0, 0.0, 0.0, 1.0];

    // Act
    let value = floats(Mat4::identity().get_value());

    // Assert
    assert!(value.iter().eq(expected_matrix.iter()), "The identity matrix was found to be incorrect!");
}

#[test]
fn should_return_correct_column_major_matrix_when_getting_column_major_value() {
    // Arrange
    let row_major_matrix = Mat4::new(scalars(
                                [11.0, 12.0, 13.0, 14.0,
                                        21.0, 22.0, 23.0, 24.0,
                                        31.0, 32.0, 33.0, 34.0,
                                        41.0, 42.0, 43.0, 44.0]));

    let expected_matrix: [f32; 16] = [11.0, 21.0, 31.0, 41.0,
                                        12.0, 22.0, 32.0, 42.0,
                                        13.0, 23.0, 33.0, 43.0,
                                        14.0, 24.0, 34.0, 44.0];

    // Act
    let matrix_in_column_major = floats(row_major_matrix.get_column_major_value());

    // Assert
    assert!(matrix_in_column_major.iter().eq(expected_matrix.iter()));
}

#[test]
fn identity_is_exact_in_every_bit() {
    let one = 1.0f32.to_bits();
    let value = Mat4::identity().get_value();
    for i in 0..16 {
        let expected = if i % 5 == 0 { one } else { 0 };
        assert_eq!(value[i].to_bits(), expected);
    }
}

#[test]
fn scalar_constants_encode_zero_and_one() {
    assert_eq!(f(Scalar::zero()), 0.0);
    assert_eq!(Scalar::zero().to_bits(), 0.0f32.to_bits());
    assert_eq!(f(Scalar::one()), 1.0);
    assert_eq!(Scalar::one(), s(1.0));
    assert_eq!(Scalar::default(), Scalar::zero());
    assert_eq!(Scalar::from_bits(0x4130_0000).to_bits(), 11.0f32.to_bits());
}

#[test]
fn negated_flips_the_sign_like_unary_minus() {
    let samples = [
        0.0f32,
        -0.0,
        1.0,
        -2.5,
        3.0e-40,
        f32::MAX,
        f32::MIN_POSITIVE,
        f32::INFINITY,
        f32::NEG_INFINITY,
    ];
    for value in samples {
        assert_eq!(s(value).negated().to_bits(), (-value).to_bits());
        assert_eq!(s(value).negated().negated(), s(value));
    }
    assert_eq!(s(1.0).negated().to_bits(), 0xBF80_0000);
    let nan = Scalar::from_bits(0x7FC0_1234);
    assert_eq!(nan.negated().to_bits(), 0xFFC0_1234);
    assert_eq!(nan.negated().to_bits(), (-f32::from_bits(0x7FC0_1234)).to_bits());
}

#[test]
fn scalar_equality_is_equality_of_encodings() {
    assert_ne!(s(0.0), s(-0.0));
    assert_eq!(Scalar::from_bits(0x7FC0_0000), Scalar::from_bits(0x7FC0_0000));
}

#[test]
fn vectors_keep_their_components() {
    let v2 = Vector2::new(s(1.5), s(-2.0));
    assert_eq!((f(v2.x), f(v2.y)), (1.5, -2.0));
    let v3 = Vector3::new(s(1.0), s(2.0), s(3.0));
    assert_eq!((f(v3.x), f(v3.y), f(v3.z)), (1.0, 2.0, 3.0));
    let v4 = Vector4::new(s(2.0), s(4.0), s(7.0), s(8.0));
    assert_eq!((f(v4.x), f(v4.y), f(v4.z), f(v4.w)), (2.0, 4.0, 7.0, 8.0));
    assert_eq!(v4.as_array(), [s(2.0), s(4.0), s(7.0), s(8.0)]);
}

#[test]
fn default_vectors_are_zero() {
    assert_eq!(Vector2::default(), Vector2::new(s(0.0), s(0.0)));
    assert_eq!(Vector3::default(), Vector3::new(s(0.0), s(0.0), s(0.0)));
    assert_eq!(Vector4::default(), Vector4::new(s(0.0), s(0.0), s(0.0), s(0.0)));
}

#[test]
fn get_addresses_column_then_row() {
    let m = Mat4::new(scalars([
        11.0, 12.0, 13.0, 14.0,
        21.0, 22.0, 23.0, 24.0,
        31.0, 32.0, 33.0, 34.0,
        41.0, 42.0, 43.0, 44.0,
    ]));
    assert_eq!(f(m.get(0, 0)), 11.0);
    assert_eq!(f(m.get(3, 0)), 14.0);
    assert_eq!(f(m.get(0, 3)), 41.0);
    assert_eq!(f(m.get(2, 1)), 23.0);
    assert_eq!(f(m.get(1, 2)), 32.0);
    assert_eq!(f(m.get(3, 3)), 44.0);
    for y in 0..4 {
        for x in 0..4 {
            assert_eq!(m.get(x, y), m.get_value()[(x + 4 * y) as usize]);
        }
    }
}

#[test]
fn rows_and_columns_of_a_matrix() {
    let m = Mat4::new(scalars([
        11.0, 12.0, 13.0, 14.0,
        21.0, 22.0, 23.0, 24.0,
        31.0, 32.0, 33.0, 34.0,
        41.0, 42.0, 43.0, 44.0,
    ]));
    assert_eq!(m.row(1), Vector4::new(s(21.0), s(22.0), s(23.0), s(24.0)));
    assert_eq!(m.row(3), Vector4::new(s(41.0), s(42.0), s(43.0), s(44.0)));
    assert_eq!(m.column(0), Vector4::new(s(11.0), s(21.0), s(31.0), s(41.0)));
    assert_eq!(m.column(2), Vector4::new(s(13.0), s(23.0), s(33.0), s(43.0)));
}

#[test]
fn product_operands_pair_rows_with_columns() {
    let a = Mat4::new(scalars([
        11.0, 12.0, 13.0, 14.0,
        21.0, 22.0, 23.0, 24.0,
        31.0, 32.0, 33.0, 34.0,
        41.0, 42.0, 43.0, 44.0,
    ]));
    let b = Mat4::new(scalars([
        1.0, 2.0, 3.0, 4.0,
        5.0, 6.0, 7.0, 8.0,
        9.0, 10.0, 11.0, 12.0,
        13.0, 14.0, 15.0, 16.0,
    ]));
    let operands = a.product_operands(&b);
    for y in 0..4 {
        for x in 0..4 {
            assert_eq!(operands[(4 * y + x) as usize], (a.row(y), b.column(x)));
        }
    }
    assert_eq!(
        operands[6],
        (
            Vector4::new(s(21.0), s(22.0), s(23.0), s(24.0)),
            Vector4::new(s(3.0), s(7.0), s(11.0), s(15.0)),
        )
    );
    assert_eq!(
        operands[13],
        (
            Vector4::new(s(41.0), s(42.0), s(43.0), s(44.0)),
            Vector4::new(s(2.0), s(6.0), s(10.0), s(14.0)),
        )
    );
}

#[test]
fn rows_of_the_transpose_are_the_columns() {
    let m = Mat4::new(scalars([
        5.0, 6.0, 1.0, 2.0,
        3.0, 0.0, 12.0, 2.0,
        48.0, 38.0, 2.0, 9.0,
        8.0, 5.0, 4.0, 44.0,
    ]));
    let mut t = m;
    t.tranpose();
    for k in 0..4 {
        assert_eq!(t.row(k), m.column(k));
        assert_eq!(t.column(k), m.row(k));
    }
}

#[test]
fn column_major_twice_gives_the_matrix_back() {
    let values = [
        5.0, 6.0, 1.0, 2.0,
        3.0, 0.0, 12.0, 2.0,
        48.0, 38.0, 2.0, 9.0,
        8.0, 5.0, 4.0, 44.0,
    ];
    let once = Mat4::new(scalars(values)).get_column_major_value();
    let twice = Mat4::new(once).get_column_major_value();
    assert_eq!(floats(twice), values);
    assert_ne!(floats(once), values);
}

#[test]
fn tranpose_and_column_major_value_agree() {
    let m = Mat4::new(scalars([
        1.0, 2.0, 3.0, 4.0,
        5.0, 6.0, 7.0, 8.0,
        9.0, 10.0, 11.0, 12.0,
        13.0, 14.0, 15.0, 16.0,
    ]));
    let reordered = m.get_column_major_value();
    let mut t = m;
    t.tranpose();
    assert_eq!(t.get_value(), reordered);
    // the matrix that was asked for its column-major value is unchanged
    assert_eq!(floats(m.get_value())[1], 2.0);
    t.tranpose();
    assert_eq!(t.get_value(), m.get_value());
}

#[test]
fn translate_puts_the_offsets_in_the_last_row() {
    let m = Mat4::translate(&Vector3::new(s(2.0), s(-3.0), s(4.5)));
    assert_eq!(
        floats(m.get_value()),
        [
            1.0, 0.0, 0.0, 0.0,
            0.0, 1.0, 0.0, 0.0,
            0.0, 0.0, 1.0, 0.0,
            2.0, -3.0, 4.5, 1.0,
        ]
    );
}

#[test]
fn translate_by_zero_is_the_identity() {
    let m = Mat4::translate(&Vector3::new(s(0.0), s(0.0), s(0.0)));
    assert_eq!(m.get_value(), Mat4::identity().get_value());
}

#[test]
fn scale_puts_the_factors_on_the_diagonal() {
    let m = Mat4::scale(&Vector3::new(s(2.0), s(3.0), s(0.5)));
    assert_eq!(
        floats(m.get_value()),
        [
            2.0, 0.0, 0.0, 0.0,
            0.0, 3.0, 0.0, 0.0,
            0.0, 0.0, 0.5, 0.0,
            0.0, 0.0, 0.0, 1.0,
        ]
    );
}

#[test]
fn scale_by_one_is_the_identity() {
    let m = Mat4::scale(&Vector3::new(s(1.0), s(1.0), s(1.0)));
    assert_eq!(m.get_value(), Mat4::identity().get_value());
}

#[test]
fn rotate_x_places_cosine_and_sine() {
    let rad = 0.75f32;
    let m = Mat4::rotate_x(s(rad.cos()), s(rad.sin()));
    let expected = [
        1.0, 0.0, 0.0, 0.0,
        0.0, rad.cos(), rad.sin(), 0.0,
        0.0, -rad.sin(), rad.cos(), 0.0,
        0.0, 0.0, 0.0, 1.0,
    ];
    assert_eq!(m.get_value(), scalars(expected));
}

#[test]
fn rotate_y_places_cosine_and_sine() {
    let rad = -1.25f32;
    let m = Mat4::rotate_y(s(rad.cos()), s(rad.sin()));
    let expected = [
        rad.cos(), 0.0, -rad.sin(), 0.0,
        0.0, 1.0, 0.0, 0.0,
        rad.sin(), 0.0, rad.cos(), 0.0,
        0.0, 0.0, 0.0, 1.0,
    ];
    assert_eq!(m.get_value(), scalars(expected));
}

#[test]
fn rotate_z_places_cosine_and_sine() {
    let rad = 2.0f32;
    let m = Mat4::rotate_z(s(rad.cos()), s(rad.sin()));
    let expected = [
        rad.cos(), rad.sin(), 0.0, 0.0,
        -rad.sin(), rad.cos(), 0.0, 0.0,
        0.0, 0.0, 1.0, 0.0,
        0.0, 0.0, 0.0, 1.0,
    ];
    assert_eq!(m.get_value(), scalars(expected));
}

fn row_times(v: [f32; 4], m: &Mat4) -> [f32; 4] {
    let row = Vector4::new(s(v[0]), s(v[1]), s(v[2]), s(v[3]));
    [dot(&row, &m.column(0)), dot(&row, &m.column(1)), dot(&row, &m.column(2)), dot(&row, &m.column(3))]
}

#[test]
fn rotations_turn_each_axis_towards_the_next() {
    let rad = 0.5f32;
    let (c, sn) = (rad.cos(), rad.sin());
    let x = Mat4::rotate_x(s(c), s(sn));
    let y = Mat4::rotate_y(s(c), s(sn));
    let z = Mat4::rotate_z(s(c), s(sn));
    assert_eq!(row_times([1.0, 0.0, 0.0, 0.0], &z), [c, sn, 0.0, 0.0]);
    assert_eq!(row_times([0.0, 1.0, 0.0, 0.0], &z), [-sn, c, 0.0, 0.0]);
    assert_eq!(row_times([0.0, 1.0, 0.0, 0.0], &x), [0.0, c, sn, 0.0]);
    assert_eq!(row_times([0.0, 0.0, 1.0, 0.0], &x), [0.0, -sn, c, 0.0]);
    assert_eq!(row_times([0.0, 0.0, 1.0, 0.0], &y), [sn, 0.0, c, 0.0]);
    assert_eq!(row_times([1.0, 0.0, 0.0, 0.0], &y), [c, 0.0, -sn, 0.0]);
}

fn quaternion_rotation(axis: [f32; 3], angle_in_radians: f32) -> Mat4 {
    let angle = angle_in_radians / 2.0;
    let (mut x, mut y, mut z, mut w) =
        (angle.sin() * axis[0], angle.sin() * axis[1], angle.sin() * axis[2], angle.cos());
    let magnitude = (x * x + y * y + z * z + w * w).sqrt();
    x /= magnitude;
    y /= magnitude;
    z /= magnitude;
    w /= magnitude;
    Mat4::rotation([
        s(1.0 - 2.0 * y * y - 2.0 * z * z),
        s(2.0 * x * y + 2.0 * z * w),
        s(2.0 * x * z - 2.0 * y * w),
        s(2.0 * x * y - 2.0 * z * w),
        s(1.0 - 2.0 * x * x - 2.0 * z * z),
        s(2.0 * y * z + 2.0 * x * w),
        s(2.0 * x * z + 2.0 * y * w),
        s(2.0 * y * z - 2.0 * x * w),
        s(1.0 - 2.0 * x * x - 2.0 * y * y),
    ])
}

fn close(a: &Mat4, b: &Mat4) -> bool {
    let (a, b) = (floats(a.get_value()), floats(b.get_value()));
    (0..16).all(|i| (a[i] - b[i]).abs() < 1e-5)
}

#[test]
fn rotations_about_the_axes_agree_with_the_rotation_about_an_axis() {
    for rad in [0.0f32, 0.3, 1.0, 2.0, -0.75, 3.0] {
        let (c, sn) = (s(rad.cos()), s(rad.sin()));
        assert!(close(&Mat4::rotate_x(c, sn), &quaternion_rotation([1.0, 0.0, 0.0], rad)));
        assert!(close(&Mat4::rotate_y(c, sn), &quaternion_rotation([0.0, 1.0, 0.0], rad)));
        assert!(close(&Mat4::rotate_z(c, sn), &quaternion_rotation([0.0, 0.0, 1.0], rad)));
    }
    let rad = 1.0f32;
    let (c, sn) = (s(rad.cos()), s(rad.sin()));
    assert!(!close(&Mat4::rotate_z(c, sn), &quaternion_rotation([0.0, 0.0, 1.0], -rad)));
}

#[test]
fn rotation_places_nine_entries_and_moves_nothing() {
    let m = Mat4::rotation([
        s(1.0), s(2.0), s(3.0),
        s(4.0), s(5.0), s(6.0),
        s(7.0), s(8.0), s(9.0),
    ]);
    assert_eq!(
        floats(m.get_value()),
        [
            1.0, 2.0, 3.0, 0.0,
            4.0, 5.0, 6.0, 0.0,
            7.0, 8.0, 9.0, 0.0,
            0.0, 0.0, 0.0, 1.0,
        ]
    );
    assert_eq!(m.get_value()[15].to_bits(), 1.0f32.to_bits());
    assert_eq!(m.get_value()[3].to_bits(), 0);
}

#[test]
fn projection_places_scales_and_depth_terms() {
    let fov = 45.0f32.to_radians();
    let (width, height, near, far) = (800.0f32, 600.0f32, 1.0f32, 100.0f32);
    let y_scale = 1.0 / (fov * 0.5).tan();
    let x_scale = y_scale / (width / height);
    let q = far / (far - near);
    let m = Mat4::projection(s(x_scale), s(y_scale), s(q), s(-q * near));
    let expected = [
        x_scale, 0.0, 0.0, 0.0,
        0.0, y_scale, 0.0, 0.0,
        0.0, 0.0, q, 1.0,
        0.0, 0.0, -q * near, 0.0,
    ];
    assert_eq!(m.get_value(), scalars(expected));
}

#[test]
fn product_with_the_identity_gives_the_matrix_back() {
    let m = Mat4::new(scalars([
        1.0, 8.0, 2.0, 3.0,
        2.0, 1.0, 1.0, 1.0,
        3.0, 2.0, 4.0, 3.0,
        1.0, 9.0, 4.0, 3.0,
    ]));
    assert_eq!(floats(product(&Mat4::identity(), &m).get_value()), floats(m.get_value()));
    assert_eq!(floats(product(&m, &Mat4::identity()).get_value()), floats(m.get_value()));
}
