use render::obj::{mesh_vertices, ObjError, ObjModel, ObjModelLine, Vertex, VertexIndices};

fn tok(s: &str) -> Vec<u8> {
    s.as_bytes().to_vec()
}

fn scalar(t: &[u8]) -> f32 {
    std::str::from_utf8(t).unwrap().parse::<f32>().unwrap()
}

#[test]
fn position_without_fourth_argument_records_unit_w() {
    let m = ObjModel::parse("v 1 2 3\n").unwrap();
    assert_eq!(m.v.len(), 1);
    assert_eq!(m.v[0].3, tok("1.0"));
    assert_eq!(scalar(&m.v[0].3), 1.0);
}

#[test]
fn position_with_fourth_argument_records_it_verbatim() {
    let m = ObjModel::parse("v 1 2 3 2.5e1\n").unwrap();
    assert_eq!(m.v.len(), 1);
    assert_eq!(m.v[0].3, tok("2.5e1"));
    assert_eq!(scalar(&m.v[0].3), 25.0);
}

#[test]
fn face_corner_indices_all_present() {
    let m = ObjModel::parse("f 1/2/3 4/5/6 7/8/9\n").unwrap();
    assert_eq!(
        m.f,
        vec![vec![
            VertexIndices { v: 1, vt: Some(2), vn: 3 },
            VertexIndices { v: 4, vt: Some(5), vn: 6 },
            VertexIndices { v: 7, vt: Some(8), vn: 9 },
        ]]
    );
}

#[test]
fn face_corner_uv_absent_between_separators() {
    let m = ObjModel::parse("f 1//3 4//6 7//9\n").unwrap();
    assert_eq!(
        m.f,
        vec![vec![
            VertexIndices { v: 1, vt: None, vn: 3 },
            VertexIndices { v: 4, vt: None, vn: 6 },
            VertexIndices { v: 7, vt: None, vn: 9 },
        ]]
    );
}

#[test]
fn quad_face_triangulates_in_diagonal_order() {
    let obj = ObjModel {
        v: vec![
            (tok("1"), tok("1"), tok("1"), tok("1")),
            (tok("-1"), tok("1"), tok("1"), tok("1")),
            (tok("-1"), tok("-1"), tok("1"), tok("1")),
            (tok("1"), tok("-1"), tok("1"), tok("1")),
        ],
        vt: vec![(tok("0"), tok("0")), (tok("1"), tok("1"))],
        vn: vec![(tok("0.5"), tok("-0.5"), tok("0.5"))],
        f: vec![vec![
            VertexIndices { v: 1, vt: Some(1), vn: 1 },
            VertexIndices { v: 2, vt: Some(1), vn: 1 },
            VertexIndices { v: 3, vt: Some(2), vn: 1 },
            VertexIndices { v: 4, vt: Some(2), vn: 1 },
        ]],
    };
    let vs = obj.vertices().unwrap();
    assert_eq!(vs.len(), 6);
    // corner order 0, 1, 2, 2, 3, 0
    let xs: Vec<f32> = vs.iter().map(|v| scalar(&v.position.0)).collect();
    let ys: Vec<f32> = vs.iter().map(|v| scalar(&v.position.1)).collect();
    assert_eq!(xs, vec![1.0, -1.0, -1.0, -1.0, 1.0, 1.0]);
    assert_eq!(ys, vec![1.0, 1.0, -1.0, -1.0, -1.0, 1.0]);
    for v in &vs {
        assert_eq!(
            (scalar(&v.normal.0), scalar(&v.normal.1), scalar(&v.normal.2)),
            (0.5, -0.5, 0.5)
        );
    }
    let uvs: Vec<(f32, f32)> = vs.iter().map(|v| (scalar(&v.uv.0), scalar(&v.uv.1))).collect();
    assert_eq!(
        uvs,
        vec![(0.0, 0.0), (0.0, 0.0), (1.0, 1.0), (1.0, 1.0), (1.0, 1.0), (0.0, 0.0)]
    );
}

#[test]
fn face_of_two_corners_is_invalid_arity() {
    let m = ObjModel::parse("v 1 2 3\nvn 0 0 1\nf 1//1 1//1\n").unwrap();
    assert_eq!(m.vertices(), Err(ObjError::InvalidFaceArity { face: 0 }));
}

#[test]
fn face_of_five_corners_is_invalid_arity() {
    let m = ObjModel::parse("v 1 2 3\nvn 0 0 1\nf 1//1 1//1 1//1 1//1 1//1\n").unwrap();
    assert_eq!(m.vertices(), Err(ObjError::InvalidFaceArity { face: 0 }));
}

#[test]
fn face_index_zero_is_out_of_range() {
    let m = ObjModel::parse("v 1 2 3\nvn 0 0 1\nf 0//1 1//1 1//1\n").unwrap();
    assert_eq!(m.vertices(), Err(ObjError::IndexOutOfRange { face: 0 }));
}

#[test]
fn face_index_past_table_is_out_of_range() {
    let m = ObjModel::parse("v 1 2 3\nvn 0 0 1\nf 1//1 2//1 1//1\n").unwrap();
    assert_eq!(m.vertices(), Err(ObjError::IndexOutOfRange { face: 0 }));
}

#[test]
fn second_bad_face_reports_its_position() {
    let m = ObjModel::parse("v 1 2 3\nvn 0 0 1\nf 1//1 1//1 1//1\nf 1//1 1//1\n").unwrap();
    assert_eq!(m.vertices(), Err(ObjError::InvalidFaceArity { face: 1 }));
}

#[test]
fn malformed_position_scalar_reports_its_line() {
    assert_eq!(
        ObjModel::parse("vn 0 0 1\nv 1 x 3\n"),
        Err(ObjError::MalformedNumber { line: 2 })
    );
}

#[test]
fn short_position_line_is_missing_field() {
    assert_eq!(
        ObjModel::parse("v 1 2\n"),
        Err(ObjError::MissingRequiredField { line: 1 })
    );
}

#[test]
fn short_texture_line_is_missing_field() {
    assert_eq!(
        ObjModel::parse("vt 1\n"),
        Err(ObjError::MissingRequiredField { line: 1 })
    );
}

#[test]
fn short_normal_line_is_missing_field() {
    assert_eq!(
        ObjModel::parse("vn 1 2\n"),
        Err(ObjError::MissingRequiredField { line: 1 })
    );
}

#[test]
fn malformed_texture_scalar_is_reported() {
    assert_eq!(
        ObjModel::parse("vt 1 q\n"),
        Err(ObjError::MalformedNumber { line: 1 })
    );
}

#[test]
fn malformed_normal_scalar_is_reported() {
    assert_eq!(
        ObjModel::parse("vn 1 2 #\n"),
        Err(ObjError::MalformedNumber { line: 1 })
    );
}

#[test]
fn face_corner_without_normal_field_is_missing() {
    assert_eq!(
        ObjModel::parse("f 1/2 1/2/3 4/5/6\n"),
        Err(ObjError::MissingRequiredField { line: 1 })
    );
}

#[test]
fn face_corner_with_empty_position_field_is_missing() {
    assert_eq!(
        ObjModel::parse("f /2/3 1/2/3 4/5/6\n"),
        Err(ObjError::MissingRequiredField { line: 1 })
    );
}

#[test]
fn face_corner_with_unreadable_index_is_malformed() {
    assert_eq!(
        ObjModel::parse("f x/2/3 1/2/3 4/5/6\n"),
        Err(ObjError::MalformedNumber { line: 1 })
    );
}

#[test]
fn face_corner_with_overflowing_index_is_malformed() {
    assert_eq!(
        ObjModel::parse("f 99999999999999999999/2/3 1/2/3 4/5/6\n"),
        Err(ObjError::MalformedNumber { line: 1 })
    );
}

#[test]
fn parse_vertex_indices_reads_one_corner() {
    assert_eq!(
        ObjModel::parse_vertex_indices("12/34/56", 7),
        Ok(VertexIndices { v: 12, vt: Some(34), vn: 56 })
    );
    assert_eq!(
        ObjModel::parse_vertex_indices("12//56", 7),
        Ok(VertexIndices { v: 12, vt: None, vn: 56 })
    );
    assert_eq!(
        ObjModel::parse_vertex_indices("1/2/3/4", 7),
        Ok(VertexIndices { v: 1, vt: Some(2), vn: 3 })
    );
    assert_eq!(
        ObjModel::parse_vertex_indices("12", 7),
        Err(ObjError::MissingRequiredField { line: 7 })
    );
    assert_eq!(
        ObjModel::parse_vertex_indices("1/2/", 7),
        Err(ObjError::MissingRequiredField { line: 7 })
    );
}

#[test]
fn numeric_grammar_accepts_the_usual_shapes() {
    let m = ObjModel::parse("v .5 5. 1e5\nv +1.25 -2.5e-3 3E+2\n").unwrap();
    assert_eq!(m.v.len(), 2);
    assert_eq!(scalar(&m.v[0].0), 0.5);
    assert_eq!(scalar(&m.v[0].1), 5.0);
    assert_eq!(scalar(&m.v[0].2), 100000.0);
    assert_eq!(scalar(&m.v[1].0), 1.25);
    assert_eq!(scalar(&m.v[1].1), -0.0025);
    assert_eq!(scalar(&m.v[1].2), 300.0);
}

#[test]
fn numeric_grammar_rejects_broken_shapes() {
    for bad in ["v . 1 2", "v 1e 2 3", "v 1.2.3 4 5", "v --1 2 3", "v 1 2 3e+"] {
        assert_eq!(
            ObjModel::parse(bad),
            Err(ObjError::MalformedNumber { line: 1 }),
            "{}",
            bad
        );
    }
}

#[test]
fn unknown_keywords_and_blank_lines_are_ignored() {
    let m = ObjModel::parse("# comment\no thing\ng group\ns 1\nusemtl mat\nmtllib lib.mtl\n\n   \n").unwrap();
    assert_eq!(m, ObjModel::new());
}

#[test]
fn carriage_returns_are_token_separators() {
    let a = ObjModel::parse("v 1 2 3\r\nvt 0 1\r\n").unwrap();
    let b = ObjModel::parse("v 1 2 3\nvt 0 1\n").unwrap();
    assert_eq!(a, b);
}

#[test]
fn extra_arguments_are_ignored_but_checked() {
    let m = ObjModel::parse("v 1 2 3 4 5\nvt 6 7 8\nvn 1 2 3 4\n").unwrap();
    assert_eq!(m.v[0], (tok("1"), tok("2"), tok("3"), tok("4")));
    assert_eq!(m.vt[0], (tok("6"), tok("7")));
    assert_eq!(m.vn[0], (tok("1"), tok("2"), tok("3")));
    assert_eq!(
        ObjModel::parse("v 1 2 3 4 bad\n"),
        Err(ObjError::MalformedNumber { line: 1 })
    );
}

#[test]
fn absent_uv_index_resolves_to_zero_pair() {
    let vs = mesh_vertices("v 1 2 3\nvn 0 0 1\nf 1//1 1//1 1//1\n").unwrap();
    assert_eq!(vs.len(), 3);
    for v in &vs {
        assert_eq!(v.uv, (tok("0.0"), tok("0.0")));
        assert_eq!(scalar(&v.uv.0), 0.0);
    }
}

#[test]
fn triangle_face_keeps_corner_order() {
    let vs = mesh_vertices("v 1 0 0\nv 0 1 0\nv 0 0 1\nvn 0 0 1\nf 1//1 2//1 3//1\n").unwrap();
    assert_eq!(vs.len(), 3);
    assert_eq!(
        vs.iter().map(|v| scalar(&v.position.0)).collect::<Vec<f32>>(),
        vec![1.0, 0.0, 0.0]
    );
    assert_eq!(
        vs.iter().map(|v| scalar(&v.position.1)).collect::<Vec<f32>>(),
        vec![0.0, 1.0, 0.0]
    );
}

#[test]
fn pipeline_is_idempotent_on_identical_input() {
    let s = "v 1 2 3\nv 4 5 6\nv 7 8 9\nvt 0 0\nvt 1 1\nvn 0 0 1\nf 1/1/1 2/2/1 3/1/1\nf 1//1 2//1 3//1\n";
    let first = mesh_vertices(s);
    let second = mesh_vertices(s);
    assert_eq!(first, second);
    let m1 = ObjModel::parse(s).unwrap();
    let m2 = ObjModel::parse(s).unwrap();
    assert_eq!(m1, m2);
    assert_eq!(m1.vertices().unwrap(), m2.vertices().unwrap());
}

#[test]
fn pipeline_surfaces_parse_faults() {
    assert_eq!(
        mesh_vertices("v 1 2 3\nv bad 2 3\n"),
        Err(ObjError::MalformedNumber { line: 2 })
    );
}

#[test]
fn triangle_list_length_is_a_multiple_of_three() {
    let s = "v 1 2 3\nv 4 5 6\nv 7 8 9\nv 1 1 1\nvn 0 0 1\nf 1//1 2//1 3//1 4//1\nf 1//1 2//1 3//1\n";
    let vs = mesh_vertices(s).unwrap();
    assert_eq!(vs.len(), 9);
    assert_eq!(vs.len() % 3, 0);
}

#[test]
fn empty_input_yields_an_empty_model() {
    let m = ObjModel::parse("").unwrap();
    assert_eq!(m, ObjModel::new());
    assert_eq!(m.vertices().unwrap(), Vec::<Vertex>::new());
}

#[test]
fn parse_line_ignores_unknown_keywords() {
    assert_eq!(ObjModel::parse_line("vp 1 2", 1), Ok(None));
    assert_eq!(ObjModel::parse_line("", 1), Ok(None));
    assert_eq!(ObjModel::parse_line("   ", 1), Ok(None));
}

#[test]
fn parse_line_face_accumulates_any_arity() {
    // arity faults belong to triangulation, not to the parser
    assert_eq!(
        ObjModel::parse_line("f 1//1 2//2", 1),
        Ok(Some(ObjModelLine::Face(vec![
            VertexIndices { v: 1, vt: None, vn: 1 },
            VertexIndices { v: 2, vt: None, vn: 2 },
        ])))
    );
}
