use softraster::geometria::Cara;
use softraster::malla::Malla;
use softraster::obj::{
    es_separador, interpretar_linea, resolver_indice, triangular, Linea, ParseError,
};

fn c(i0: usize, i1: usize, i2: usize) -> Cara {
    Cara { i0, i1, i2 }
}

#[test]
fn vertex_line_gives_three_coordinates() {
    match interpretar_linea("v 1.0 2.0 3.0", 0) {
        Ok(Linea::Vertice(x, y, z)) => {
            assert_eq!((x, y, z), ("1.0", "2.0", "3.0"));
            let v: Vec<f32> = [x, y, z].iter().map(|t| t.parse().unwrap()).collect();
            assert_eq!(v, vec![1.0, 2.0, 3.0]);
        }
        other => panic!("{:?}", other),
    }
}

#[test]
fn vertex_line_with_two_coordinates_is_malformed() {
    assert_eq!(interpretar_linea("v 1.0 2.0", 0), Err(ParseError::MalformedVertex));
    assert_eq!(interpretar_linea("v 1.0", 7), Err(ParseError::MalformedVertex));
}

#[test]
fn vertex_line_ignores_what_follows_the_third_coordinate() {
    assert_eq!(interpretar_linea("v 1 2 3 4 five", 0), Ok(Linea::Vertice("1", "2", "3")));
}

#[test]
fn vertex_line_keeps_text_that_is_no_number() {
    // Whether a coordinate is a number is for the caller to decide.
    assert_eq!(interpretar_linea("v 1 dos 3", 0), Ok(Linea::Vertice("1", "dos", "3")));
}

#[test]
fn vertex_line_with_surrounding_space() {
    assert_eq!(
        interpretar_linea("  \t v   -1.5\t2e3   .25  \r", 0),
        Ok(Linea::Vertice("-1.5", "2e3", ".25"))
    );
    assert_eq!(
        interpretar_linea("v \u{a0}1\u{2003}2\u{3000}3", 0),
        Ok(Linea::Vertice("1", "2", "3"))
    );
}

#[test]
fn vertex_tag_needs_a_plain_space() {
    assert_eq!(interpretar_linea("v\t1 2 3", 0), Ok(Linea::Ignorada));
    assert_eq!(interpretar_linea("v", 0), Ok(Linea::Ignorada));
    assert_eq!(interpretar_linea("v   ", 0), Ok(Linea::Ignorada));
    assert_eq!(interpretar_linea("vn 0 0 1", 0), Ok(Linea::Ignorada));
    assert_eq!(interpretar_linea("vt 0.5 0.5", 0), Ok(Linea::Ignorada));
}

#[test]
fn blank_and_comment_lines_are_skipped() {
    for l in ["", "   ", "\t\r", "# v 1 2 3", "   #f 1 2", "#"] {
        assert_eq!(interpretar_linea(l, 3), Ok(Linea::Ignorada));
    }
}

#[test]
fn other_records_are_skipped() {
    for l in ["o ship", "g hull", "s off", "usemtl red", "mtllib a.mtl", "V 1 2 3", "1 2 3"] {
        assert_eq!(interpretar_linea(l, 3), Ok(Linea::Ignorada));
    }
}

#[test]
fn face_with_positive_indices_is_token_minus_one() {
    assert_eq!(interpretar_linea("f 1 2 3", 3), Ok(Linea::Caras(vec![c(0, 1, 2)])));
    assert_eq!(interpretar_linea("f 7 19 4", 20), Ok(Linea::Caras(vec![c(6, 18, 3)])));
    for k in 1..200isize {
        assert_eq!(resolver_indice(k, 0), Some((k - 1) as usize));
        assert_eq!(resolver_indice(k, 1000), Some((k - 1) as usize));
    }
    assert_eq!(resolver_indice(isize::MAX, 0), Some(isize::MAX as usize - 1));
}

#[test]
fn negative_index_counts_back_from_the_last_vertex() {
    assert_eq!(resolver_indice(-1, 5), Some(4));
    assert_eq!(resolver_indice(-5, 5), Some(0));
    assert_eq!(resolver_indice(-2, 9), Some(7));
    assert_eq!(resolver_indice(-1, usize::MAX), Some(usize::MAX - 1));
    assert_eq!(interpretar_linea("f -1 -2 -3", 5), Ok(Linea::Caras(vec![c(4, 3, 2)])));
    assert_eq!(interpretar_linea("f 1 -1 2", 5), Ok(Linea::Caras(vec![c(0, 4, 1)])));
}

#[test]
fn index_zero_is_one_past_the_vertices_read() {
    assert_eq!(resolver_indice(0, 5), Some(5));
    assert_eq!(resolver_indice(0, 0), Some(0));
}

#[test]
fn index_before_the_first_vertex_names_no_vertex() {
    assert_eq!(resolver_indice(-1, 0), None);
    assert_eq!(resolver_indice(-6, 5), None);
    assert_eq!(resolver_indice(-7, 5), None);
    assert_eq!(resolver_indice(isize::MIN, 0), None);
    assert_eq!(resolver_indice(isize::MIN, isize::MAX as usize), None);
    assert_eq!(resolver_indice(isize::MIN, isize::MAX as usize + 1), Some(0));
    assert_eq!(interpretar_linea("f 1 2 -1", 0), Err(ParseError::InvalidFaceIndex));
    assert_eq!(interpretar_linea("f -6 1 2", 5), Err(ParseError::InvalidFaceIndex));
    assert_eq!(interpretar_linea("f -5 1 2", 5), Ok(Linea::Caras(vec![c(0, 0, 1)])));
    assert_eq!(interpretar_linea("f -3", 2), Err(ParseError::InvalidFaceIndex));
}

#[test]
fn quad_is_split_into_two_triangles() {
    assert_eq!(interpretar_linea("f 1 2 3 4", 4), Ok(Linea::Caras(vec![c(0, 1, 2), c(0, 2, 3)])));
    assert_eq!(triangular(&[0, 1, 2, 3]), Ok(vec![c(0, 1, 2), c(0, 2, 3)]));
}

#[test]
fn polygon_is_split_into_a_fan() {
    assert_eq!(triangular(&[4, 8, 15]), Ok(vec![c(4, 8, 15)]));
    assert_eq!(
        triangular(&[9, 1, 2, 3, 4, 5]),
        Ok(vec![c(9, 1, 2), c(9, 2, 3), c(9, 3, 4), c(9, 4, 5)])
    );
    let idx: Vec<usize> = (0..50).collect();
    let fan = triangular(&idx).unwrap();
    assert_eq!(fan.len(), 48);
    assert_eq!(fan[47], c(0, 48, 49));
}

#[test]
fn fewer_than_three_corners_are_degenerate() {
    assert_eq!(triangular(&[]), Err(ParseError::DegenerateFace));
    assert_eq!(triangular(&[1]), Err(ParseError::DegenerateFace));
    assert_eq!(triangular(&[1, 2]), Err(ParseError::DegenerateFace));
    assert_eq!(interpretar_linea("f", 3), Err(ParseError::DegenerateFace));
    assert_eq!(interpretar_linea("f 1", 3), Err(ParseError::DegenerateFace));
    assert_eq!(interpretar_linea("f 1 2", 3), Err(ParseError::DegenerateFace));
}

#[test]
fn face_index_that_is_no_integer_is_invalid() {
    for l in [
        "f 1 2 x",
        "f a b c",
        "f 1.0 2 3",
        "f 1 2 3 4x",
        "f 1 /2 3",
        "f 1 - 3",
        "f 1 + 3",
        "f 1 2 0x3",
        "f 1 2 3_0",
        "f 1 2 --3",
        "f 1 2 99999999999999999999999999",
        "f 1 2 -99999999999999999999999999",
    ] {
        assert_eq!(interpretar_linea(l, 9), Err(ParseError::InvalidFaceIndex), "{}", l);
    }
}

#[test]
fn invalid_index_is_reported_before_a_short_face() {
    assert_eq!(interpretar_linea("f 1 x", 3), Err(ParseError::InvalidFaceIndex));
    assert_eq!(interpretar_linea("f x", 3), Err(ParseError::InvalidFaceIndex));
}

#[test]
fn face_index_takes_the_first_field_only() {
    assert_eq!(interpretar_linea("f 1/10/20 2/11/21 3/12/22", 3), Ok(Linea::Caras(vec![c(0, 1, 2)])));
    assert_eq!(interpretar_linea("f 1//7 2//8 3//9", 3), Ok(Linea::Caras(vec![c(0, 1, 2)])));
    assert_eq!(interpretar_linea("f 1/x 2/ 3/y/z", 3), Ok(Linea::Caras(vec![c(0, 1, 2)])));
    assert_eq!(interpretar_linea("f -1/4 -2/5 -3/6", 3), Ok(Linea::Caras(vec![c(2, 1, 0)])));
}

#[test]
fn face_index_may_carry_a_sign_and_leading_zeros() {
    assert_eq!(interpretar_linea("f +1 002 0000000000000000000000003", 3), Ok(Linea::Caras(vec![c(0, 1, 2)])));
}

#[test]
fn face_index_at_the_limits_of_the_machine() {
    let max = format!("f 1 2 {}", isize::MAX);
    assert_eq!(interpretar_linea(&max, 3), Ok(Linea::Caras(vec![c(0, 1, isize::MAX as usize - 1)])));
    let over = format!("f 1 2 {}", isize::MAX as u128 + 1);
    assert_eq!(interpretar_linea(&over, 3), Err(ParseError::InvalidFaceIndex));
    let min = format!("f 1 2 {}", isize::MIN);
    assert_eq!(interpretar_linea(&min, 0), Err(ParseError::InvalidFaceIndex));
    assert_eq!(
        interpretar_linea(&min, isize::MAX as usize + 2),
        Ok(Linea::Caras(vec![c(0, 1, 1)]))
    );
    let under = format!("f 1 2 -{}", isize::MAX as u128 + 2);
    assert_eq!(interpretar_linea(&under, 3), Err(ParseError::InvalidFaceIndex));
}

#[test]
fn any_line_that_starts_with_f_is_a_face() {
    assert_eq!(interpretar_linea("face 1 2 3", 3), Ok(Linea::Caras(vec![c(0, 1, 2)])));
    assert_eq!(interpretar_linea("\tf\t3\t2\t1\t", 3), Ok(Linea::Caras(vec![c(2, 1, 0)])));
    assert_eq!(interpretar_linea("f1 2 3", 3), Err(ParseError::DegenerateFace));
}

#[test]
fn separators_are_the_white_space_of_unicode() {
    for n in 0..=0x10FFFFu32 {
        if let Some(ch) = char::from_u32(n) {
            assert_eq!(es_separador(ch), ch.is_whitespace(), "U+{:04X}", n);
        }
    }
}

#[test]
fn lines_split_like_the_standard_library() {
    let samples = [
        "v 1 2 3",
        "  v \u{2009}1   2\u{85}3  ",
        "f  1/2/3\t4//5 \u{1680}6 ",
        "v a\u{200a}b\u{2028}c\u{2029}d\u{202f}e\u{205f}f",
        "v \u{b}1\u{c}2 3",
    ];
    for s in samples {
        let words: Vec<&str> = s.split_whitespace().collect();
        match interpretar_linea(s, 9) {
            Ok(Linea::Vertice(x, y, z)) => assert_eq!([x, y, z], [words[1], words[2], words[3]]),
            Ok(Linea::Caras(caras)) => assert_eq!(caras.len(), words.len() - 3),
            other => panic!("{:?}", other),
        }
    }
}

#[test]
fn mesh_without_faces_is_empty() {
    let mut vertices: Vec<[f32; 3]> = Vec::new();
    let mut caras: Vec<Cara> = Vec::new();
    for l in ["# three vertices", "v 0 0 0", "v 1 0 0", "v 0 1 0"] {
        match interpretar_linea(l, vertices.len()).unwrap() {
            Linea::Vertice(x, y, z) => {
                vertices.push([x.parse().unwrap(), y.parse().unwrap(), z.parse().unwrap()])
            }
            Linea::Caras(nuevas) => caras.extend(nuevas),
            Linea::Ignorada => {}
        }
    }
    assert_eq!(vertices.len(), 3);
    assert_eq!(Malla::nueva(vertices, caras).err(), Some(ParseError::EmptyMesh));
}

#[test]
fn mesh_without_vertices_is_empty() {
    let vertices: Vec<[f32; 3]> = Vec::new();
    assert_eq!(Malla::nueva(vertices, vec![c(0, 1, 2)]).err(), Some(ParseError::EmptyMesh));
    let nothing: Vec<u8> = Vec::new();
    assert_eq!(Malla::nueva(nothing, Vec::new()).err(), Some(ParseError::EmptyMesh));
}

#[test]
fn mesh_keeps_vertices_and_faces_in_order() {
    let m = Malla::nueva(vec![10u8, 20, 30, 40], vec![c(0, 1, 2), c(0, 2, 3)]).ok().unwrap();
    assert_eq!(m.vertices(), &vec![10u8, 20, 30, 40]);
    assert_eq!(m.caras(), &vec![c(0, 1, 2), c(0, 2, 3)]);
}

#[test]
fn mesh_with_a_face_beyond_its_vertices_is_invalid() {
    let beyond = Malla::nueva(vec![10u8], vec![c(5, 6, 7)]);
    assert_eq!(beyond.err(), Some(ParseError::InvalidFaceIndex));
    for cara in [c(3, 0, 0), c(0, 3, 0), c(0, 0, 3), c(usize::MAX, 0, 0)] {
        let m = Malla::nueva(vec![10u8, 20, 30], vec![c(0, 1, 2), cara]);
        assert_eq!(m.err(), Some(ParseError::InvalidFaceIndex));
    }
    assert!(Malla::nueva(vec![10u8, 20, 30], vec![c(2, 2, 2)]).is_ok());
}

#[test]
fn mesh_without_vertices_is_empty_whatever_its_faces() {
    let nothing: Vec<u8> = Vec::new();
    assert_eq!(Malla::nueva(nothing, vec![c(5, 6, 7)]).err(), Some(ParseError::EmptyMesh));
}

#[test]
fn face_may_name_a_vertex_of_a_later_line() {
    let text = "f 1 2 3\nv 0 0 0\nv 1 0 0\nv 0 1 0\n";
    let mut vertices: Vec<[f32; 3]> = Vec::new();
    let mut caras: Vec<Cara> = Vec::new();
    for l in text.lines() {
        match interpretar_linea(l, vertices.len()).unwrap() {
            Linea::Vertice(x, y, z) => {
                vertices.push([x.parse().unwrap(), y.parse().unwrap(), z.parse().unwrap()])
            }
            Linea::Caras(nuevas) => caras.extend(nuevas),
            Linea::Ignorada => {}
        }
    }
    assert!(Malla::nueva(vertices.clone(), caras).is_ok());
    assert_eq!(
        Malla::nueva(vertices, vec![c(0, 1, 3)]).err(),
        Some(ParseError::InvalidFaceIndex)
    );
}

#[test]
fn file_with_a_face_beyond_its_vertices_does_not_load() {
    let text = "v 0 0 0\nf 6 7 8\n";
    let mut vertices: Vec<[f32; 3]> = Vec::new();
    let mut caras: Vec<Cara> = Vec::new();
    for l in text.lines() {
        match interpretar_linea(l, vertices.len()).unwrap() {
            Linea::Vertice(x, y, z) => {
                vertices.push([x.parse().unwrap(), y.parse().unwrap(), z.parse().unwrap()])
            }
            Linea::Caras(nuevas) => caras.extend(nuevas),
            Linea::Ignorada => {}
        }
    }
    assert_eq!(caras, vec![c(5, 6, 7)]);
    assert_eq!(Malla::nueva(vertices, caras).err(), Some(ParseError::InvalidFaceIndex));
}

#[test]
fn whole_file_line_by_line() {
    let text = "# a square\nv 0 0 0\nv 1 0 0\n\nv 1 1 0\nv 0 1 0\nvn 0 0 1\nf 1/1/1 2/2/1 -2/3/1 -1/4/1\n";
    let mut vertices: Vec<[f32; 3]> = Vec::new();
    let mut caras: Vec<Cara> = Vec::new();
    for l in text.lines() {
        match interpretar_linea(l, vertices.len()).unwrap() {
            Linea::Vertice(x, y, z) => {
                vertices.push([x.parse().unwrap(), y.parse().unwrap(), z.parse().unwrap()])
            }
            Linea::Caras(nuevas) => caras.extend(nuevas),
            Linea::Ignorada => {}
        }
    }
    let m = Malla::nueva(vertices, caras).ok().unwrap();
    assert_eq!(m.vertices().len(), 4);
    assert_eq!(m.vertices()[2], [1.0, 1.0, 0.0]);
    assert_eq!(m.caras(), &vec![c(0, 1, 2), c(0, 2, 3)]);
}
