//! Geometric queries and the centering transform.

use laurel::{Atom, BoxVectors, Name, Structure, Vec3Fixed};

fn atom(id: u32, x: i64, y: i64, z: i64) -> Atom {
    Atom {
        resnum: id,
        resname: Name::new(b"RES".to_vec()).unwrap(),
        atomname: Name::new(b"A".to_vec()).unwrap(),
        atomnum: id,
        position: Vec3Fixed { x, y, z },
    }
}

fn zero_box() -> BoxVectors {
    BoxVectors { v1x: 0, v2y: 0, v3z: 0, v1y: 0, v1z: 0, v2x: 0, v2z: 0, v3x: 0, v3y: 0 }
}

#[test]
fn center_of_empty_is_zero() {
    let st = Structure { title: Vec::new(), atoms: Vec::new(), box_vecs: zero_box() };
    assert_eq!(st.center(), Vec3Fixed { x: 0, y: 0, z: 0 });
    assert_eq!(st.min_z(), 0);
    assert_eq!(st.max_z(), 0);
    assert_eq!(st.n_atoms(), 0);
}

#[test]
fn center_is_truncated_mean() {
    let atoms = vec![
        atom(1, 0, 0, 0),
        atom(2, 0, 0, 0),
        atom(3, 1_000_000, -1_000_000, 1_000_000),
    ];
    let st = Structure { title: b"t".to_vec(), atoms, box_vecs: zero_box() };
    // 1000000 / 3 truncates toward zero, in either direction.
    assert_eq!(
        st.center(),
        Vec3Fixed { x: 333_333, y: -333_333, z: 333_333 }
    );
}

#[test]
fn center_structure_yields_exact_zero_center() {
    let atoms = vec![
        atom(1, 1_000_000, 2_000_000, 3_000_000),
        atom(2, 2_000_000, -4_000_000, 3_500_000),
        atom(3, -5_250_000, 1_000_000, 0),
    ];
    let mut st = Structure { title: b"t".to_vec(), atoms, box_vecs: zero_box() };
    st.center_structure();
    assert_eq!(st.center(), Vec3Fixed { x: 0, y: 0, z: 0 });
}

#[test]
fn center_structure_translates_by_center() {
    let atoms = vec![atom(1, 1_000_000, 2_000_000, 3_000_000)];
    let mut st = Structure { title: b"t".to_vec(), atoms, box_vecs: zero_box() };
    st.center_structure();
    assert_eq!(st.atoms[0].position, Vec3Fixed { x: 0, y: 0, z: 0 });
}

#[test]
fn center_structure_keeps_identifiers_and_box() {
    let bv = BoxVectors {
        v1x: 1,
        v2y: 2,
        v3z: 3,
        v1y: 4,
        v1z: 5,
        v2x: 6,
        v2z: 7,
        v3x: 8,
        v3y: 9,
    };
    let atoms = vec![atom(7, 10, 20, 30), atom(8, -10, -20, -30)];
    let mut st = Structure { title: b"title".to_vec(), atoms, box_vecs: bv };
    st.center_structure();
    assert_eq!(st.title, b"title".to_vec());
    assert_eq!(st.box_vecs, bv);
    assert_eq!(st.n_atoms(), 2);
    assert_eq!(st.atoms[0].resnum, 7);
    assert_eq!(st.atoms[0].resname.bytes(), b"RES".to_vec());
    assert_eq!(st.atoms[1].atomnum, 8);
}

#[test]
fn centering_twice_changes_nothing_more() {
    let atoms = vec![atom(1, 3, 5, 9), atom(2, 4, 6, 10), atom(3, 8, 7, 11)];
    let mut st = Structure { title: Vec::new(), atoms, box_vecs: zero_box() };
    st.center_structure();
    let once = st.clone();
    st.center_structure();
    assert_eq!(st, once);
}

#[test]
fn min_and_max_z() {
    let atoms = vec![atom(1, 0, 0, 500), atom(2, 0, 0, -2_000), atom(3, 0, 0, 1_500)];
    let st = Structure { title: Vec::new(), atoms, box_vecs: zero_box() };
    assert_eq!(st.min_z(), -2_000);
    assert_eq!(st.max_z(), 1_500);
}

#[test]
fn min_max_z_of_single_atom() {
    let atoms = vec![atom(1, 1, 2, 42)];
    let st = Structure { title: Vec::new(), atoms, box_vecs: zero_box() };
    assert_eq!(st.min_z(), 42);
    assert_eq!(st.max_z(), 42);
}

#[test]
fn z_extents_bound_every_atom_of_decoded_file() {
    let mut s = String::new();
    s.push_str("three waters\n3\n");
    s.push_str("    1  WAT   OW    1   1.000   2.000   3.000\n");
    s.push_str("    2  WAT   OW    2  -1.250   0.500  -7.125\n");
    s.push_str("    3  WAT   OW    3   4.000  -2.000   5.500\n");
    s.push_str("3.0 3.0 3.0\n");
    let st = Structure::from_gro(&s).unwrap();
    let lo = st.min_z();
    let hi = st.max_z();
    assert_eq!(lo, -7_125_000);
    assert_eq!(hi, 5_500_000);
    for a in &st.atoms {
        assert!(lo <= a.position.z && a.position.z <= hi);
    }
}

#[test]
fn decoded_structure_centers_to_zero() {
    let mut s = String::new();
    s.push_str("two atoms\n2\n");
    s.push_str("    1  WAT   OW    1   1.000   2.000   3.000\n");
    s.push_str("    2  WAT   OW    2   2.000   1.000   0.001\n");
    s.push_str("3.0 3.0 3.0\n");
    let mut st = Structure::from_gro(&s).unwrap();
    st.center_structure();
    assert_eq!(st.center(), Vec3Fixed { x: 0, y: 0, z: 0 });
    assert_eq!(
        st.atoms[0].position,
        Vec3Fixed { x: -500_000, y: 500_000, z: 1_499_500 }
    );
    assert_eq!(
        st.atoms[1].position,
        Vec3Fixed { x: 500_000, y: -500_000, z: -1_499_500 }
    );
}
