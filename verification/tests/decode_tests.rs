//! Decoder behaviour on well-formed and malformed inputs.

use laurel::{AtomField, DecodeError, Structure, Vec3Fixed, MICRO};

/// A well-formed single-atom file: water oxygen at (1, 2, 3) nm.
fn one_atom_file() -> String {
    let mut s = String::new();
    s.push_str("Water test\n");
    s.push_str("1\n");
    s.push_str("    1  WAT   OW    1   1.000   2.000   3.000\n");
    s.push_str("3.0 3.0 3.0\n");
    s
}

#[test]
fn well_formed_one_atom() {
    let st = Structure::from_gro(&one_atom_file()).unwrap();
    assert_eq!(st.n_atoms(), 1);
    assert_eq!(st.title, b"Water test".to_vec());
    let atom = &st.atoms[0];
    assert_eq!(atom.resnum, 1);
    assert_eq!(atom.resname.bytes(), b"WAT".to_vec());
    assert_eq!(atom.atomname.bytes(), b"OW".to_vec());
    assert_eq!(atom.atomnum, 1);
    assert_eq!(
        atom.position,
        Vec3Fixed { x: 1_000_000, y: 2_000_000, z: 3_000_000 }
    );
    assert_eq!(
        st.center(),
        Vec3Fixed { x: 1 * MICRO, y: 2 * MICRO, z: 3 * MICRO }
    );
}

#[test]
fn truncated_when_one_record_missing() {
    // Header declares two atoms but only one record (plus the box line) is
    // supplied: the line structure is short, so the decode is truncated.
    let mut s = String::new();
    s.push_str("Water test\n");
    s.push_str("2\n");
    s.push_str("    1  WAT   OW    1   1.000   2.000   3.000\n");
    s.push_str("3.0 3.0 3.0\n");
    assert_eq!(Structure::from_gro(&s), Err(DecodeError::TruncatedInput));
}

#[test]
fn truncated_on_empty_input() {
    assert_eq!(Structure::from_gro(""), Err(DecodeError::TruncatedInput));
}

#[test]
fn truncated_on_title_only() {
    assert_eq!(
        Structure::from_gro("just a title\n"),
        Err(DecodeError::TruncatedInput)
    );
}

#[test]
fn truncated_without_box_line() {
    let mut s = String::new();
    s.push_str("Water test\n");
    s.push_str("1\n");
    s.push_str("    1  WAT   OW    1   1.000   2.000   3.000\n");
    assert_eq!(Structure::from_gro(&s), Err(DecodeError::TruncatedInput));
}

#[test]
fn invalid_atom_count_not_numeric() {
    let s = "title\nabc\n3.0 3.0 3.0\n";
    assert_eq!(Structure::from_gro(s), Err(DecodeError::InvalidAtomCount));
}

#[test]
fn invalid_atom_count_negative() {
    let s = "title\n-1\n3.0 3.0 3.0\n";
    assert_eq!(Structure::from_gro(s), Err(DecodeError::InvalidAtomCount));
}

#[test]
fn zero_atoms_decodes() {
    let s = "empty system\n0\n3.0 3.0 3.0\n";
    let st = Structure::from_gro(s).unwrap();
    assert_eq!(st.n_atoms(), 0);
    assert_eq!(st.center(), Vec3Fixed { x: 0, y: 0, z: 0 });
    assert_eq!(st.min_z(), 0);
    assert_eq!(st.max_z(), 0);
}

#[test]
fn box_line_three_tokens_defaults_off_diagonal() {
    let st = Structure::from_gro(&one_atom_file()).unwrap();
    assert_eq!(st.box_vecs.v1x, 3_000_000);
    assert_eq!(st.box_vecs.v2y, 3_000_000);
    assert_eq!(st.box_vecs.v3z, 3_000_000);
    assert_eq!(st.box_vecs.v1y, 0);
    assert_eq!(st.box_vecs.v1z, 0);
    assert_eq!(st.box_vecs.v2x, 0);
    assert_eq!(st.box_vecs.v2z, 0);
    assert_eq!(st.box_vecs.v3x, 0);
    assert_eq!(st.box_vecs.v3y, 0);
}

#[test]
fn box_line_malformed_trailing_group_defaults_to_zero() {
    // Three valid diagonal terms, then six trailing tokens with one bad
    // entry: the whole trailing group is discarded, not applied partially.
    let mut s = String::new();
    s.push_str("title\n0\n");
    s.push_str("4.0 5.0 6.0 1.0 abc 2.0 3.0 4.5 5.5\n");
    let st = Structure::from_gro(&s).unwrap();
    assert_eq!(st.box_vecs.v1x, 4_000_000);
    assert_eq!(st.box_vecs.v2y, 5_000_000);
    assert_eq!(st.box_vecs.v3z, 6_000_000);
    assert_eq!(st.box_vecs.v1y, 0);
    assert_eq!(st.box_vecs.v1z, 0);
    assert_eq!(st.box_vecs.v2x, 0);
    assert_eq!(st.box_vecs.v2z, 0);
    assert_eq!(st.box_vecs.v3x, 0);
    assert_eq!(st.box_vecs.v3y, 0);
}

#[test]
fn box_line_nine_tokens_sets_off_diagonal() {
    let s = "title\n0\n1.0 2.0 3.0 0.1 0.2 0.3 0.4 0.5 0.6\n";
    let st = Structure::from_gro(s).unwrap();
    assert_eq!(st.box_vecs.v1x, 1_000_000);
    assert_eq!(st.box_vecs.v2y, 2_000_000);
    assert_eq!(st.box_vecs.v3z, 3_000_000);
    assert_eq!(st.box_vecs.v1y, 100_000);
    assert_eq!(st.box_vecs.v1z, 200_000);
    assert_eq!(st.box_vecs.v2x, 300_000);
    assert_eq!(st.box_vecs.v2z, 400_000);
    assert_eq!(st.box_vecs.v3x, 500_000);
    assert_eq!(st.box_vecs.v3y, 600_000);
}

#[test]
fn box_line_ten_tokens_defaults_off_diagonal() {
    // More than six trailing tokens is not an exact off-diagonal group.
    let s = "title\n0\n1.0 2.0 3.0 0.1 0.2 0.3 0.4 0.5 0.6 0.7\n";
    let st = Structure::from_gro(s).unwrap();
    assert_eq!(st.box_vecs.v1y, 0);
    assert_eq!(st.box_vecs.v3y, 0);
}

#[test]
fn box_line_short_trailing_group_defaults_to_zero() {
    let s = "title\n0\n1.0 2.0 3.0 0.1 0.2\n";
    let st = Structure::from_gro(s).unwrap();
    assert_eq!(st.box_vecs.v1y, 0);
    assert_eq!(st.box_vecs.v1z, 0);
}

#[test]
fn box_line_two_tokens_fails() {
    let s = "title\n0\n1.0 2.0\n";
    assert_eq!(Structure::from_gro(s), Err(DecodeError::MalformedBoxVectors));
}

#[test]
fn box_line_bad_diagonal_fails() {
    let s = "title\n0\nabc 2.0 3.0\n";
    assert_eq!(Structure::from_gro(s), Err(DecodeError::MalformedBoxVectors));
}

#[test]
fn box_line_empty_fails() {
    let s = "title\n0\n\n";
    assert_eq!(Structure::from_gro(s), Err(DecodeError::MalformedBoxVectors));
}

#[test]
fn malformed_residue_number() {
    let mut s = String::new();
    s.push_str("title\n1\n");
    s.push_str("abcde  WAT   OW    1   1.000   2.000   3.000\n");
    s.push_str("3.0 3.0 3.0\n");
    assert_eq!(
        Structure::from_gro(&s),
        Err(DecodeError::MalformedAtomRecord {
            field: AtomField::ResidueNumber,
            record_index: 0,
        })
    );
}

#[test]
fn malformed_position_field() {
    let mut s = String::new();
    s.push_str("title\n1\n");
    s.push_str("    1  WAT   OW    1   1.0x0   2.000   3.000\n");
    s.push_str("3.0 3.0 3.0\n");
    assert_eq!(
        Structure::from_gro(&s),
        Err(DecodeError::MalformedAtomRecord {
            field: AtomField::PosX,
            record_index: 0,
        })
    );
}

#[test]
fn malformed_record_reports_index() {
    let mut s = String::new();
    s.push_str("title\n2\n");
    s.push_str("    1  WAT   OW    1   1.000   2.000   3.000\n");
    s.push_str("    2  WAT   OW    x   1.000   2.000   3.000\n");
    s.push_str("3.0 3.0 3.0\n");
    assert_eq!(
        Structure::from_gro(&s),
        Err(DecodeError::MalformedAtomRecord {
            field: AtomField::AtomNumber,
            record_index: 1,
        })
    );
}

#[test]
fn short_record_line_is_malformed() {
    let mut s = String::new();
    s.push_str("title\n1\n");
    s.push_str("    1  WAT   OW\n");
    s.push_str("3.0 3.0 3.0\n");
    assert_eq!(
        Structure::from_gro(&s),
        Err(DecodeError::MalformedAtomRecord {
            field: AtomField::AtomNumber,
            record_index: 0,
        })
    );
}

#[test]
fn name_overflow_on_construction() {
    assert!(laurel::Name::new(b"TOOBIG".to_vec()).is_none());
    let nm = laurel::Name::new(b"WAT".to_vec()).unwrap();
    assert_eq!(nm.bytes(), b"WAT".to_vec());
    assert_eq!(nm.len(), 3);
}

#[test]
fn negative_and_signed_coordinates() {
    let mut s = String::new();
    s.push_str("title\n1\n");
    s.push_str("    1  WAT   OW    1  -1.500  +0.250   0.125\n");
    s.push_str("3.0 3.0 3.0\n");
    let st = Structure::from_gro(&s).unwrap();
    assert_eq!(
        st.atoms[0].position,
        Vec3Fixed { x: -1_500_000, y: 250_000, z: 125_000 }
    );
}

#[test]
fn crlf_line_endings() {
    let s = "title\r\n1\r\n    1  WAT   OW    1   1.000   2.000   3.000\r\n3.0 3.0 3.0\r\n";
    let st = Structure::from_gro(s).unwrap();
    assert_eq!(st.title, b"title".to_vec());
    assert_eq!(st.n_atoms(), 1);
    assert_eq!(st.box_vecs.v1x, 3_000_000);
}

#[test]
fn trailing_lines_after_box_are_ignored() {
    let mut s = one_atom_file();
    s.push_str("extra trailing text\nmore\n");
    let st = Structure::from_gro(&s).unwrap();
    assert_eq!(st.n_atoms(), 1);
}

#[test]
fn count_line_is_trimmed() {
    let s = "title\n  1  \n    1  WAT   OW    1   1.000   2.000   3.000\n3.0 3.0 3.0\n";
    let st = Structure::from_gro(s).unwrap();
    assert_eq!(st.n_atoms(), 1);
}

#[test]
fn leading_zeros_in_numbers() {
    let s = "title\n01\n  007  WAT   OW  042  01.000  02.000  03.000\n3.0 3.0 3.0\n";
    let st = Structure::from_gro(s).unwrap();
    assert_eq!(st.n_atoms(), 1);
    assert_eq!(st.atoms[0].resnum, 7);
    assert_eq!(st.atoms[0].atomnum, 42);
    assert_eq!(st.atoms[0].position.x, 1_000_000);
}
