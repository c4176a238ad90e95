use typed_value_decoder::{decode, Json, JsonNumber, Member, Val};

fn to_json(value: &serde_json::Value) -> Json {
    match value {
        serde_json::Value::Null => Json::Null,
        serde_json::Value::Bool(b) => Json::Bool(*b),
        serde_json::Value::Number(n) => {
            if let Some(i) = n.as_i64() {
                Json::Number(JsonNumber::Integer(i as i128))
            } else if let Some(u) = n.as_u64() {
                Json::Number(JsonNumber::Integer(u as i128))
            } else {
                Json::Number(JsonNumber::Real(n.as_f64().unwrap().to_bits()))
            }
        }
        serde_json::Value::String(s) => Json::String(s.clone()),
        serde_json::Value::Array(items) => Json::Array(items.iter().map(to_json).collect()),
        serde_json::Value::Object(members) => Json::Object(
            members
                .iter()
                .map(|(key, value)| Member { key: key.clone(), value: to_json(value) })
                .collect(),
        ),
    }
}

fn inputs(text: &str) -> Vec<Val> {
    let mut out = Vec::new();
    for document in serde_json::Deserializer::from_str(text).into_iter::<serde_json::Value>() {
        out.push(decode(&to_json(&document.unwrap())).unwrap());
    }
    out
}

#[test]
fn bool_deserializes() {
    let test = "{ \"$type\":\"Boolean\", \"_value\": true }";
    for input in inputs(test) {
        match input {
            Val::Boolean { value } => {
                assert_eq!(true, value);
            }
            _ => panic!("test fail"),
        };
    }
}

#[test]
fn i64_deserializes() {
    let test = "{ \"$type\":\"Integer\", \"_value\": \"10\" }";
    for input in inputs(test) {
        match input {
            Val::Integer { value } => {
                assert_eq!(10i64, value);
            }
            _ => panic!("test fail"),
        };
    }
}

#[test]
fn f64_deserializes() {
    let test = "{ \"$type\":\"Float\", \"_value\": \"1.0\" }";
    for input in inputs(test) {
        match input {
            Val::Float { value } => {
                assert_eq!(1.0, value.parse::<f64>().unwrap());
            }
            _ => panic!("test fail"),
        };
    }
}

#[test]
fn string_deserializes() {
    let test = "{ \"$type\":\"String\", \"_value\": \"bert\" }";
    for input in inputs(test) {
        match input {
            Val::String { value } => {
                assert_eq!("bert", value);
            }
            _ => panic!("test fail"),
        };
    }
}

#[test]
fn u8_deserializes() {
    let test = "{ \"$type\":\"ByteArray\", \"_value\": [1,2,3,4,255] }";
    for input in inputs(test) {
        match input {
            Val::ByteArray { value } => {
                let res: &[u8] = &*value;
                assert_eq!([1u8, 2u8, 3u8, 4u8, 255u8], res);
            }
            _ => panic!("test fail"),
        };
    }
}

#[test]
fn map_deserializes() {
    let test = "{ \"$type\":\"Map\", \"_value\": {\"k\": { \"$type\":\"String\", \"_value\": \"bert\" } } }";
    for input in inputs(test) {
        match input {
            Val::Mapping { value } => {
                let v = value.get("k").unwrap().clone();
                match v {
                    Val::String { value } => {
                        assert_eq!("bert", value);
                    }
                    _ => panic!("test fail"),
                }
            }
            _ => panic!("test fail"),
        };
    }
}

#[test]
fn nest_map_deserializes() {
    let test = "{ \"$type\":\"Map\", \"_value\": {\"k\": { \"$type\":\"Map\", \"_value\":  {\"m\": { \"$type\":\"String\", \"_value\": \"bert\" } } } } }";
    for input in inputs(test) {
        match input {
            Val::Mapping { value } => {
                let v = value.get("k").unwrap().clone();
                match v {
                    Val::Mapping { value } => {
                        let r = value.get("m").unwrap().clone();
                        match r {
                            Val::String { value } => {
                                assert_eq!("bert", value);
                            }
                            _ => panic!("test fail"),
                        }
                    }
                    _ => panic!("test fail"),
                }
            }
            _ => panic!("test fail"),
        };
    }
}

#[test]
fn zdt_deserializes() {
    let test = "{ \"$type\":\"ZoneDateTime\", \"_value\": \"2012-01-01T12:00:00[+02:00]\" }";
    for input in inputs(test) {
        match input {
            Val::ZoneDateTime { value } => {
                assert_eq!(12u32, value.hour());
            }
            _ => panic!("test fail"),
        };
    }
}

#[test]
fn dt_deserializes() {
    let test = "{ \"$type\":\"DateTime\", \"_value\": \"2012-01-01T12:00:00\" }";
    for input in inputs(test) {
        match input {
            Val::DateTime { value } => {
                assert_eq!(12u32, value.hour());
            }
            _ => panic!("test fail"),
        };
    }
}

#[test]
fn list_deserializes() {
    let test = "{ \"$type\":\"List\", \"_value\": [{ \"$type\":\"Integer\", \"_value\": \"10\" }]}";
    for input in inputs(test) {
        match input {
            Val::List { value } => match *value.get(0).unwrap() {
                Val::Integer { value } => {
                    assert_eq!(value, 10);
                }
                _ => panic!("test fail"),
            },
            _ => panic!("test fail"),
        };
    }
}

#[test]
fn nest_list_deserializes() {
    let test = "{ \"$type\":\"List\", \"_value\": [{ \"$type\":\"List\", \"_value\": [{\"$type\":\"Integer\", \"_value\": \"10\"}] }]}";
    for input in inputs(test) {
        match input {
            Val::List { value } => {
                let outer = value.get(0).unwrap();
                match outer {
                    Val::List { value } => {
                        let inner = value.get(0).unwrap();
                        match inner {
                            Val::Integer { value } => {
                                assert_eq!(*value, 10);
                            }
                            _ => panic!("test fail"),
                        }
                    }
                    _ => panic!("test fail"),
                }
            }
            _ => panic!("test fail"),
        };
    }
}

#[test]
fn node_deserializes() {
    let test = "{
                \"$type\": \"Node\",
                \"_value\": {
                    \"_element_id\": \"4:ca452f2f-1fbe-4d91-8b67-486b237e24c5:13\",
                    \"_labels\": [\"Person\"],
                    \"_properties\": {
                        \"name\": {
                            \"$type\": \"String\",
                            \"_value\": \"Richard\"
                        }
                    }
                }
            }";
    for input in inputs(test) {
        match input {
            Val::Node { value } => {
                assert_eq!("4:ca452f2f-1fbe-4d91-8b67-486b237e24c5:13", value.element_id);
                let labels: &[String] = &*value.labels;
                assert_eq!(labels, value.labels);
                assert_eq!(vec!["Person".to_string()], value.labels);
                assert_eq!(1, value.properties.len());

                match &value.properties.get("name").unwrap() {
                    Val::String { value } => {
                        assert_eq!("Richard", value)
                    }
                    _ => panic!("test fail"),
                }
            }
            _ => panic!("test fail"),
        };
    }
}

#[test]
fn rel_deserializes() {
    let test = "{
                \"$type\": \"Relationship\",
                \"_value\": {
                    \"_element_id\": \"5:ca452f2f-1fbe-4d91-8b67-486b237e24c5:1152921504606846989\",
                    \"_start_node_element_id\": \"4:ca452f2f-1fbe-4d91-8b67-486b237e24c5:13\",
                    \"_end_node_element_id\": \"4:ca452f2f-1fbe-4d91-8b67-486b237e24c5:14\",
                    \"_type\": \"RIDES\",
                    \"_properties\": {
                        \"name\": {
                            \"$type\": \"String\",
                            \"_value\": \"Richard\"
                        }
                    }
                }
            }";
    for input in inputs(test) {
        match input {
            Val::Relationship { value } => {
                assert_eq!(
                    "5:ca452f2f-1fbe-4d91-8b67-486b237e24c5:1152921504606846989",
                    value.element_id
                );
                assert_eq!("4:ca452f2f-1fbe-4d91-8b67-486b237e24c5:13", value.start_node_element_id);
                assert_eq!("4:ca452f2f-1fbe-4d91-8b67-486b237e24c5:14", value.end_node_element_id);
                assert_eq!("RIDES", value.type_);
                assert_eq!(1, value.properties.len());

                match &value.properties.get("name").unwrap() {
                    Val::String { value } => {
                        assert_eq!("Richard", value)
                    }
                    _ => panic!("test fail"),
                }
            }
            _ => panic!("test fail"),
        };
    }
}

#[test]
fn path_deserializes() {
    let test = "{
                \"$type\": \"Path\",
                \"_value\": [
                    {
                        \"$type\": \"Node\",
                        \"_value\": {
                            \"_element_id\": \"4:ca452f2f-1fbe-4d91-8b67-486b237e24c5:13\",
                            \"_labels\": [\"Person\"],
                            \"_properties\": {}
                        }
                    },
                    {
                        \"$type\": \"Relationship\",
                        \"_value\": {
                            \"_element_id\": \"5:ca452f2f-1fbe-4d91-8b67-486b237e24c5:1152921504606846989\",
                            \"_start_node_element_id\": \"4:ca452f2f-1fbe-4d91-8b67-486b237e24c5:13\",
                            \"_end_node_element_id\": \"4:ca452f2f-1fbe-4d91-8b67-486b237e24c5:14\",
                            \"_type\": \"RIDES\",
                            \"_properties\": {}
                        }
                    },
                    {
                        \"$type\": \"Node\",
                        \"_value\": {
                            \"_element_id\": \"4:ca452f2f-1fbe-4d91-8b67-486b237e24c5:14\",
                            \"_labels\": [\"Bicycle\"],
                            \"_properties\": {}
                        }
                    }
                ]
            }";
    for input in inputs(test) {
        match input {
            Val::Path { value } => {
                assert_eq!(2, value.nodes.len());
                assert_eq!(1, value.relationships.len());
                assert_eq!(value.nodes.len(), value.relationships.len() + 1);
                assert_eq!("4:ca452f2f-1fbe-4d91-8b67-486b237e24c5:13", value.nodes[0].element_id);
                assert_eq!("4:ca452f2f-1fbe-4d91-8b67-486b237e24c5:14", value.nodes[1].element_id);
                assert_eq!(vec!["Bicycle".to_string()], value.nodes[1].labels);
                assert_eq!("RIDES", value.relationships[0].type_);
                assert_eq!(value.nodes[0].element_id, value.relationships[0].start_node_element_id);
                assert_eq!(value.nodes[1].element_id, value.relationships[0].end_node_element_id);
            }
            _ => panic!("test fail"),
        };
    }
}
