use t3dpy::{
    parse_t3d, T3dExpected, T3dFloat, T3dObject, T3dPropertyValue, T3dReference, T3dValue,
    T3dVector,
};

fn parse_one(text: &str) -> T3dObject {
    let mut objects = parse_t3d(text).expect("document should parse");
    assert_eq!(1, objects.len());
    objects.remove(0)
}

fn scalar<'a>(object: &'a T3dObject, name: &str) -> &'a T3dValue {
    match object.get(&name.to_string()) {
        Ok(T3dPropertyValue::Value(v)) => v,
        other => panic!("expected a scalar for {}: {:?}", name, other),
    }
}

fn float(text: &str) -> T3dFloat {
    T3dFloat { text: text.to_string() }
}

#[test]
fn same_input_same_tree() {
    let text = "Begin Map\n Begin Actor\n  A=1\n  B[0]=(X=1,Y=\"s\")\n  V 1.0,2.0,3.0\n End Actor\nEnd Map\n";
    let first = format!("{:?}", parse_t3d(text));
    let second = format!("{:?}", parse_t3d(text));
    assert_eq!(first, second);
    let bad = "Begin Map\n A=(\nEnd Map";
    assert_eq!(format!("{:?}", parse_t3d(bad)), format!("{:?}", parse_t3d(bad)));
}

#[test]
fn empty_value_and_empty_string_both_present() {
    let object = parse_one("Begin Object\n MyEmptyString=\n TheNextString=\"\"\nEnd Object\n");
    assert_eq!(2, object.properties.len());
    for name in ["MyEmptyString", "TheNextString"] {
        match scalar(&object, name) {
            T3dValue::String(s) => assert_eq!("", s),
            other => panic!("{:?}", other),
        }
    }
    assert!(object.get(&"Missing".to_string()).is_err());
}

#[test]
fn vertex_lines_kept_in_order() {
    let object = parse_one(
        "Begin Polygon\n Vertex 1,2,3\n Vertex -4.5,+5.0,6e2\n Vertex 7,8,9\n Vertex 1,2,3\nEnd Polygon\n",
    );
    assert_eq!(4, object.vector_properties.len());
    assert_eq!(0, object.properties.len());
    let xs: Vec<&str> = object.vector_properties.iter().map(|(_, v)| v.x.text.as_str()).collect();
    assert_eq!(vec!["1", "-4.5", "7", "1"], xs);
    assert!(object.vector_properties.iter().all(|(n, _)| n == "Vertex"));
    assert_eq!("+5.0", object.vector_properties[1].1.y.text);
    assert_eq!("6e2", object.vector_properties[1].1.z.text);
    let x: f32 = object.vector_properties[1].1.x.text.parse().unwrap();
    assert_eq!(-4.5f32, x);
}

#[test]
fn duplicate_scalar_keeps_first() {
    let object = parse_one("Begin Object\n A=1\n A=2\n A[3]=4\nEnd Object\n");
    assert_eq!(1, object.properties.len());
    assert!(matches!(scalar(&object, "A"), T3dValue::Int(1)));
}

#[test]
fn indexed_assignments_accumulate() {
    let object = parse_one("Begin Object\n B[0]=1\n B[2]=two\n B=3\nEnd Object\n");
    match object.get(&"B".to_string()).unwrap() {
        T3dPropertyValue::Array(items) => {
            assert_eq!(3, items.len());
            assert!(matches!(items[0], (Some(0), T3dValue::Int(1))));
            assert!(matches!(&items[1], (Some(2), T3dValue::Identifier(s)) if s == "two"));
            assert!(matches!(items[2], (None, T3dValue::Int(3))));
        }
        other => panic!("{:?}", other),
    }
}

#[test]
fn deep_nesting() {
    let depth = 250;
    let mut text = String::new();
    for k in 0..depth {
        text.push_str(&format!("Begin Level{}\n", k));
    }
    for k in (0..depth).rev() {
        text.push_str(&format!("End Level{}\n", k));
    }
    let root = parse_one(&text);
    let mut node = &root;
    for k in 0..depth {
        assert_eq!(format!("Level{}", k), node.type_);
        if k + 1 < depth {
            assert_eq!(1, node.children.len());
            node = &node.children[0];
        } else {
            assert_eq!(0, node.children.len());
        }
    }
}

#[test]
fn unmatched_begin_is_error() {
    let text = "Begin Object\n  A=1\n";
    let err = parse_t3d(text).unwrap_err();
    assert_eq!(text.chars().count(), err.position);
    assert_eq!(T3dExpected::Statement, err.expected);
    assert_eq!(3, err.line);
    assert_eq!(1, err.column);
}

#[test]
fn wrong_closing_name_is_error() {
    let err = parse_t3d("Begin Object\nEnd Other\n").unwrap_err();
    assert_eq!(T3dExpected::EndName, err.expected);
    assert_eq!(17, err.position);
    assert_eq!(2, err.line);
    assert_eq!(5, err.column);
}

#[test]
fn stray_text_is_error() {
    let err = parse_t3d("Hello").unwrap_err();
    assert_eq!(T3dExpected::Begin, err.expected);
    assert_eq!(0, err.position);
    assert_eq!(1, err.line);
    assert_eq!(1, err.column);
}

#[test]
fn unterminated_string_is_error() {
    let err = parse_t3d("Begin O\n S=\"abc\nEnd O").unwrap_err();
    assert_eq!(T3dExpected::ClosingQuote, err.expected);
    assert_eq!(21, err.position);
}

#[test]
fn unterminated_reference_is_error() {
    let err = parse_t3d("Begin O\n R=Mesh'abc").unwrap_err();
    assert_eq!(T3dExpected::ClosingQuote, err.expected);
}

#[test]
fn integer_out_of_range_is_error() {
    let err = parse_t3d("Begin O\n N=2147483648\nEnd O").unwrap_err();
    assert_eq!(T3dExpected::IntRange, err.expected);
    assert_eq!(11, err.position);
    let object = parse_one("Begin O\n N=-2147483648\n M=2147483647\nEnd O");
    assert!(matches!(scalar(&object, "N"), T3dValue::Int(i32::MIN)));
    assert!(matches!(scalar(&object, "M"), T3dValue::Int(i32::MAX)));
}

#[test]
fn bad_index_and_missing_parts_are_errors() {
    assert_eq!(T3dExpected::Index, parse_t3d("Begin O\n A[x]=1\nEnd O").unwrap_err().expected);
    assert_eq!(T3dExpected::CloseBracket, parse_t3d("Begin O\n A[1=1\nEnd O").unwrap_err().expected);
    assert_eq!(T3dExpected::CloseParen, parse_t3d("Begin O\n A=(1 2)\nEnd O").unwrap_err().expected);
    assert_eq!(T3dExpected::Value, parse_t3d("Begin O\n A=(1,)\nEnd O").unwrap_err().expected);
    assert_eq!(T3dExpected::Statement, parse_t3d("Begin O\n V 1,2\nEnd O").unwrap_err().expected);
    assert_eq!(T3dExpected::Identifier, parse_t3d("Begin\n").unwrap_err().expected);
    assert_eq!(T3dExpected::EndName, parse_t3d("Begin O\nEnd\n").unwrap_err().expected);
    assert_eq!(T3dExpected::Equals, parse_t3d("Begin O\n A[1] 2\nEnd O").unwrap_err().expected);
}

#[test]
fn literal_kinds() {
    let object = parse_one(
        "Begin O\n I=-42\n F=+1.5e3\n T=TRUE\n N=false\n W=Some.Name\n S=\"a b\"\n R=Texture'Pkg.Tex'\n D=2DLoft\nEnd O\n",
    );
    assert!(matches!(scalar(&object, "I"), T3dValue::Int(-42)));
    assert!(matches!(scalar(&object, "F"), T3dValue::Float(f) if f.text == "+1.5e3"));
    assert!(matches!(scalar(&object, "T"), T3dValue::Bool(true)));
    assert!(matches!(scalar(&object, "N"), T3dValue::Bool(false)));
    assert!(matches!(scalar(&object, "W"), T3dValue::Identifier(s) if s == "Some.Name"));
    assert!(matches!(scalar(&object, "S"), T3dValue::String(s) if s == "a b"));
    assert!(
        matches!(scalar(&object, "R"), T3dValue::Reference(r) if r.type_ == "Texture" && r.path == "Pkg.Tex")
    );
    assert!(matches!(scalar(&object, "D"), T3dValue::Identifier(s) if s == "2DLoft"));
}

#[test]
fn struct_values() {
    let object = parse_one("Begin O\n P=(X=1, Y=(2,3), X=4, Z=)\nEnd O\n");
    match scalar(&object, "P") {
        T3dValue::Struct(entries) => {
            assert_eq!(3, entries.len());
            assert_eq!("X", entries[0].0);
            assert!(matches!(entries[0].1, T3dValue::Int(4)));
            assert!(matches!(&entries[1].1, T3dValue::Array(a) if a.len() == 2));
            assert!(matches!(&entries[2].1, T3dValue::String(s) if s.is_empty()));
        }
        other => panic!("{:?}", other),
    }
}

#[test]
fn children_in_source_order() {
    let object = parse_one("Begin Map\n Begin A\n End A\n X=1\n Begin B\n End B\nEnd Map");
    let types: Vec<&str> = object.children.iter().map(|c| c.type_.as_str()).collect();
    assert_eq!(vec!["A", "B"], types);
    let many = parse_t3d("Begin A\nEnd A\nBegin B\nEnd B\n").unwrap();
    assert_eq!(2, many.len());
    assert_eq!(0, parse_t3d("  \n ").unwrap().len());
}

#[test]
fn renderings() {
    assert_eq!("-42", T3dValue::Int(-42).to_string());
    assert_eq!("2147483647", T3dValue::Int(i32::MAX).to_string());
    assert_eq!("-2147483648", T3dValue::Int(i32::MIN).to_string());
    assert_eq!("0", T3dValue::Int(0).to_string());
    assert_eq!("1.25", T3dValue::Float(float("1.25")).to_string());
    assert_eq!("true", T3dValue::Bool(true).to_string());
    assert_eq!("false", T3dValue::Bool(false).to_string());
    assert_eq!("\"ab\"", T3dValue::String("ab".to_string()).to_string());
    assert_eq!("Struct()", T3dValue::Struct(Vec::new()).to_string());
    assert_eq!("Array()", T3dValue::Array(Vec::new()).to_string());
    assert_eq!("Word", T3dValue::Identifier("Word".to_string()).to_string());
    let reference = T3dReference { type_: "StaticMesh".to_string(), path: "Foo.Bar".to_string() };
    assert_eq!("StaticMesh'Foo.Bar'", reference.to_string());
    assert_eq!("StaticMesh'Foo.Bar'", T3dValue::Reference(reference).to_string());
    let v = T3dVector { x: float("1.0"), y: float("-2"), z: float("3e1") };
    assert_eq!("(1.0, -2, 3e1)", T3dValue::Vector(v).to_string());
}

#[test]
fn error_after_valid_block_points_past_it() {
    let err = parse_t3d("Begin A\nEnd A\nBegin B\n").unwrap_err();
    assert!(err.position >= 14);
    assert_eq!(22, err.position);
    assert_eq!(4, err.line);
}

#[test]
fn wrong_end_name_points_at_end_line() {
    let err = parse_t3d("Begin A\nX=1\nEnd B\n").unwrap_err();
    assert!(err.position >= 12);
    assert_eq!(T3dExpected::EndName, err.expected);
    assert_eq!(3, err.line);
}

#[test]
fn nested_groups_read_at_every_depth() {
    let object = parse_one("Begin O\n A=((1,2),(X=\"s\",Y=(3)))\n U=42\n F=1.5\nEnd O\n");
    match scalar(&object, "A") {
        T3dValue::Array(items) => {
            assert_eq!(2, items.len());
            match items[0].as_ref().unwrap() {
                T3dValue::Array(inner) => {
                    assert!(matches!(inner[0], Some(T3dValue::Int(1))));
                    assert!(matches!(inner[1], Some(T3dValue::Int(2))));
                }
                other => panic!("{:?}", other),
            }
            match items[1].as_ref().unwrap() {
                T3dValue::Struct(entries) => {
                    assert_eq!(2, entries.len());
                    assert!(matches!(&entries[0].1, T3dValue::String(s) if s == "s"));
                    assert!(matches!(&entries[1].1, T3dValue::Array(a) if a.len() == 1));
                }
                other => panic!("{:?}", other),
            }
        }
        other => panic!("{:?}", other),
    }
    assert!(matches!(scalar(&object, "U"), T3dValue::Int(42)));
    assert!(matches!(scalar(&object, "F"), T3dValue::Float(f) if f.text == "1.5"));
}
