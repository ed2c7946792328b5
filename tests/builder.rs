use t3dpy::{
    T3dFloat, T3dObject, T3dObjectStatement, T3dPropertyAssignment, T3dPropertyAssignmentVector,
    T3dPropertyValue, T3dValue, T3dVector,
};

fn assignment(name: &str, index: Option<i32>, value: i32) -> T3dObjectStatement {
    T3dObjectStatement::PropertyAssignment(T3dPropertyAssignment {
        name: name.to_string(),
        index,
        value: T3dValue::Int(value),
    })
}

fn vector(name: &str, x: &str) -> T3dObjectStatement {
    let f = |t: &str| T3dFloat { text: t.to_string() };
    T3dObjectStatement::PropertyAssignmentVector(T3dPropertyAssignmentVector {
        name: name.to_string(),
        value: T3dVector { x: f(x), y: f("0"), z: f("0") },
    })
}

#[test]
fn builder_scalar_then_duplicate() {
    let mut object = T3dObject::new("Actor".to_string());
    object.add_statement(assignment("A", None, 1));
    object.add_statement(assignment("A", None, 2));
    object.add_statement(assignment("A", Some(0), 3));
    assert_eq!(1, object.properties.len());
    assert!(matches!(object.get(&"A".to_string()), Ok(T3dPropertyValue::Value(T3dValue::Int(1)))));
}

#[test]
fn builder_indexed_then_plain() {
    let mut object = T3dObject::new("Actor".to_string());
    object.add_statement(assignment("B", Some(5), 1));
    object.add_statement(assignment("C", None, 9));
    object.add_statement(assignment("B", None, 2));
    object.add_statement(assignment("B", Some(5), 3));
    assert_eq!(2, object.properties.len());
    match object.get(&"B".to_string()) {
        Ok(T3dPropertyValue::Array(items)) => {
            let seen: Vec<(Option<i32>, i32)> = items
                .iter()
                .map(|(i, v)| match v {
                    T3dValue::Int(n) => (*i, *n),
                    other => panic!("{:?}", other),
                })
                .collect();
            assert_eq!(vec![(Some(5), 1), (None, 2), (Some(5), 3)], seen);
        }
        other => panic!("{:?}", other),
    }
}

#[test]
fn builder_vectors_and_children() {
    let mut object = T3dObject::new("Brush".to_string());
    for x in ["1", "2", "2", "3"] {
        object.add_statement(vector("Vertex", x));
    }
    object.add_statement(T3dObjectStatement::Object(T3dObject::new("Polygon".to_string())));
    object.add_statement(T3dObjectStatement::Object(T3dObject::new("PolyList".to_string())));
    let xs: Vec<&str> = object.vector_properties.iter().map(|(_, v)| v.x.text.as_str()).collect();
    assert_eq!(vec!["1", "2", "2", "3"], xs);
    let types: Vec<&str> = object.children.iter().map(|c| c.type_.as_str()).collect();
    assert_eq!(vec!["Polygon", "PolyList"], types);
    assert!(object.get(&"Vertex".to_string()).is_err());
    assert_eq!(0, object.properties.len());
}
