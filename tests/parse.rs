use t3dpy::{parse_t3d, T3dPropertyValue, T3dValue};

#[test]
fn property_assignment_with_reference_array() -> Result<(), String> {
    let contents = String::from("
        Begin Object
            SomeArray=(StaticMesh'Foo.Bar',StaticMesh'Baz.Boo')
        End Object
        ");
    let result = parse_t3d(contents.as_str());
    match result {
        Ok(objects) => {
            let object = objects.first().unwrap();
            let property = object.get(&"SomeArray".to_string()).unwrap();
            match property {
                T3dPropertyValue::Value(v) => match v {
                    T3dValue::Array(values) => {
                        match values.get(0).unwrap().as_ref().unwrap() {
                            T3dValue::Reference(reference) => {
                                assert_eq!(reference.type_, "StaticMesh");
                                assert_eq!(reference.path, "Foo.Bar");
                            }
                            _ => {
                                assert_eq!(false, true);
                            }
                        };
                        match values.get(1).unwrap().as_ref().unwrap() {
                            T3dValue::Reference(reference) => {
                                assert_eq!(reference.type_, "StaticMesh");
                                assert_eq!(reference.path, "Baz.Boo");
                            }
                            _ => {
                                assert_eq!(false, true);
                            }
                        }
                        Ok(())
                    }
                    _ => Err(String::from("Expected array value")),
                },
                _ => Err(String::from("Wrong value type")),
            }
        }
        Err(error) => Err(format!("{:?}", error)),
    }
}

#[test]
fn property_assignment_empty_value() -> Result<(), String> {
    let contents = String::from("
            Begin Object
                MyEmptyString=
                TheNextString=\"\"
            End Object
        ");
    let result = parse_t3d(contents.as_str());
    match &result {
        Ok(objects) => {
            assert_eq!(1, objects.len());
            let object = objects.first().unwrap();
            assert_eq!(2, object.properties.len());
            let value = object.get(&"MyEmptyString".to_string()).ok();
            assert_eq!(true, value.is_some());
            match value.unwrap() {
                T3dPropertyValue::Value(value) => match value {
                    T3dValue::String(string) => {
                        assert_eq!(string.as_str(), "");
                        Ok(())
                    }
                    _ => Err(String::from("Wrong type of value")),
                },
                _ => Err(String::from(
                    "Property value should have been a bare value (not an array)",
                )),
            }
        }
        Err(error) => Err(format!("{:?}", error)),
    }
}

#[test]
fn ut99_polygon() {
    let contents = String::from("
            Begin Polygon Item=2DLoftSIDE Texture=DecayedS.Wall.dWallA3 Flags=32768
                Origin   -01023.999878,+00000.000000,-01056.000122
                Normal   -00000.923880,+00000.382684,-00000.000000
                TextureU +00000.191342,+00000.461940,+00000.000000
                TextureV +00000.000000,+00000.000000,-00000.500000
                Pan      U=57 V=99
                Vertex   -01024.000000,+00000.000000,-00016.000090
                Vertex   -01024.000000,+00000.000000,+00495.999908
                Vertex   -00724.077332,+00724.077271,+00495.999939
                Vertex   -00724.077271,+00724.077271,-00016.000063
            End Polygon
        ");
    // `Pan U=57 V=99` is neither an assignment nor a vector statement.
    let err = parse_t3d(contents.as_str()).unwrap_err();
    assert_eq!(t3dpy::T3dExpected::Statement, err.expected);
    assert_eq!(7, err.line);
    let pan_line = contents.lines().nth(6).unwrap();
    assert_eq!(pan_line.find('U').unwrap() + 1, err.column);
}
