use render::obj::{ObjModel, ObjModelLine, VertexIndices, Vertex};

fn tok(s: &str) -> Vec<u8> {
    s.as_bytes().to_vec()
}

#[test]
fn test_parse_line() {
    assert_eq!(
        ObjModel::parse_line("v 1.0 2.0 3.0", 1),
        Ok(Some(ObjModelLine::VertexPos(tok("1.0"), tok("2.0"), tok("3.0"), tok("1.0"))))
    );
    assert_eq!(
        ObjModel::parse_line("v 1.0 2.0 3.0 4.0", 1),
        Ok(Some(ObjModelLine::VertexPos(tok("1.0"), tok("2.0"), tok("3.0"), tok("4.0"))))
    );

    assert_eq!(
        ObjModel::parse_line("vt 1.0 2.0", 1),
        Ok(Some(ObjModelLine::VertexUv(tok("1.0"), tok("2.0"))))
    );

    assert_eq!(
        ObjModel::parse_line("vn 1.0 2.0 3.0", 1),
        Ok(Some(ObjModelLine::VertexNormal(tok("1.0"), tok("2.0"), tok("3.0"))))
    );

    assert_eq!(
        ObjModel::parse_line("f 1/2/3 4/5/6 7/8/9", 1),
        Ok(Some(ObjModelLine::Face(vec![
            VertexIndices { v: 1, vt: Some(2), vn: 3 },
            VertexIndices { v: 4, vt: Some(5), vn: 6 },
            VertexIndices { v: 7, vt: Some(8), vn: 9 },
        ])))
    );
    assert_eq!(
        ObjModel::parse_line("f 1//3 4//6 7//9", 1),
        Ok(Some(ObjModelLine::Face(vec![
            VertexIndices { v: 1, vt: None, vn: 3 },
            VertexIndices { v: 4, vt: None, vn: 6 },
            VertexIndices { v: 7, vt: None, vn: 9 },
        ])))
    );
}

#[test]
fn test_parse_1() {
    let s = "# obj file\nv 1.0 2.0 3.0 4.0\nvt 1.0 2.0\nvn 1.0 2.0 3.0\nf 0/0/0 1/1/1 2/2/2\n";
    let actual = ObjModel::parse(s).unwrap();
    let expected = ObjModel {
        v: vec![(tok("1.0"), tok("2.0"), tok("3.0"), tok("4.0"))],
        vt: vec![(tok("1.0"), tok("2.0"))],
        vn: vec![(tok("1.0"), tok("2.0"), tok("3.0"))],
        f: vec![vec![
            VertexIndices { v: 0, vt: Some(0), vn: 0 },
            VertexIndices { v: 1, vt: Some(1), vn: 1 },
            VertexIndices { v: 2, vt: Some(2), vn: 2 },
        ]],
    };
    assert_eq!(actual, expected);
}

#[test]
fn test_parse_2() {
    let s = "# Blender v2.76 (sub 0) OBJ File: ''\n# www.blender.org\nmtllib monkey.mtl\no Suzanne\nv 1.0 1.0 1.0\nv -1.0 1.0 1.0\nvn 0.5 -0.5 0.5\nvn 0.5 0.5 0.5\nusemtl None\ns 1\nf 7830//1 516//2 3//3 517//4\nf 7821//5 528//6 48//7 529//8\n";
    let actual = ObjModel::parse(s).unwrap();
    let expected = ObjModel {
        v: vec![
            (tok("1.0"), tok("1.0"), tok("1.0"), tok("1.0")),
            (tok("-1.0"), tok("1.0"), tok("1.0"), tok("1.0")),
        ],
        vt: vec![],
        vn: vec![
            (tok("0.5"), tok("-0.5"), tok("0.5")),
            (tok("0.5"), tok("0.5"), tok("0.5")),
        ],
        f: vec![
            vec![
                VertexIndices { v: 7830, vt: None, vn: 1 },
                VertexIndices { v: 516, vt: None, vn: 2 },
                VertexIndices { v: 3, vt: None, vn: 3 },
                VertexIndices { v: 517, vt: None, vn: 4 },
            ],
            vec![
                VertexIndices { v: 7821, vt: None, vn: 5 },
                VertexIndices { v: 528, vt: None, vn: 6 },
                VertexIndices { v: 48, vt: None, vn: 7 },
                VertexIndices { v: 529, vt: None, vn: 8 },
            ],
        ],
    };
    assert_eq!(actual, expected);
}

#[test]
fn test_vertices() {
    let obj = ObjModel {
        v: vec![
            (tok("1.0"), tok("1.0"), tok("1.0"), tok("1.0")),
            (tok("-1.0"), tok("1.0"), tok("1.0"), tok("1.0")),
            (tok("-1.0"), tok("-1.0"), tok("1.0"), tok("1.0")),
            (tok("1.0"), tok("-1.0"), tok("1.0"), tok("1.0")),
        ],
        vt: vec![(tok("0.0"), tok("0.0")), (tok("1.0"), tok("1.0"))],
        vn: vec![(tok("0.5"), tok("-0.5"), tok("0.5"))],
        f: vec![
            vec![
                VertexIndices { v: 1, vt: Some(1), vn: 1 },
                VertexIndices { v: 2, vt: Some(1), vn: 1 },
                VertexIndices { v: 3, vt: Some(2), vn: 1 },
                VertexIndices { v: 4, vt: Some(2), vn: 1 },
            ],
            vec![
                VertexIndices { v: 1, vt: Some(1), vn: 1 },
                VertexIndices { v: 2, vt: Some(1), vn: 1 },
                VertexIndices { v: 3, vt: Some(2), vn: 1 },
            ],
        ],
    };
    let actual = obj.vertices().unwrap();
    let expected = vec![
        Vertex {
            position: (tok("1.0"), tok("1.0"), tok("1.0")),
            normal: (tok("0.5"), tok("-0.5"), tok("0.5")),
            uv: (tok("0.0"), tok("0.0")),
        },
        Vertex {
            position: (tok("-1.0"), tok("1.0"), tok("1.0")),
            normal: (tok("0.5"), tok("-0.5"), tok("0.5")),
            uv: (tok("0.0"), tok("0.0")),
        },
        Vertex {
            position: (tok("-1.0"), tok("-1.0"), tok("1.0")),
            normal: (tok("0.5"), tok("-0.5"), tok("0.5")),
            uv: (tok("1.0"), tok("1.0")),
        },
        Vertex {
            position: (tok("-1.0"), tok("-1.0"), tok("1.0")),
            normal: (tok("0.5"), tok("-0.5"), tok("0.5")),
            uv: (tok("1.0"), tok("1.0")),
        },
        Vertex {
            position: (tok("1.0"), tok("-1.0"), tok("1.0")),
            normal: (tok("0.5"), tok("-0.5"), tok("0.5")),
            uv: (tok("1.0"), tok("1.0")),
        },
        Vertex {
            position: (tok("1.0"), tok("1.0"), tok("1.0")),
            normal: (tok("0.5"), tok("-0.5"), tok("0.5")),
            uv: (tok("0.0"), tok("0.0")),
        },
        Vertex {
            position: (tok("1.0"), tok("1.0"), tok("1.0")),
            normal: (tok("0.5"), tok("-0.5"), tok("0.5")),
            uv: (tok("0.0"), tok("0.0")),
        },
        Vertex {
            position: (tok("-1.0"), tok("1.0"), tok("1.0")),
            normal: (tok("0.5"), tok("-0.5"), tok("0.5")),
            uv: (tok("0.0"), tok("0.0")),
        },
        Vertex {
            position: (tok("-1.0"), tok("-1.0"), tok("1.0")),
            normal: (tok("0.5"), tok("-0.5"), tok("0.5")),
            uv: (tok("1.0"), tok("1.0")),
        },
    ];
    assert_eq!(actual, expected);
}
