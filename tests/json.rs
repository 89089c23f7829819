use tcobalt::json::{parse, JsonObject, JsonValue as Val, TypeMismatch};
use tcobalt::parser::JsonErrorKind;

fn s(text: &str) -> String {
    text.to_string()
}

fn obj(entries: Vec<(&str, Val)>) -> JsonObject {
    let mut o = JsonObject::new();
    for (k, v) in entries {
        o.insert(k.to_string(), v);
    }
    o
}

#[test]
fn json_parse() {
    let inline_str = "{'key':\"val\",\"num\":42,\"bool\":true,'none':null,\"list\":[\"member1\",\"member2\"],\"subobj\":{\"subkey\":\"val\"}}";
    let block_str = "{
        \"key\": \"val\",
        \"num\": 42,
        \"bool\": true,
        \"none\": null,
        \"list\": [
            \"member1\",
            \"member \\\"two\\\"\"
        ],
        \"inline list\": [\"member1\", 'member2', 99, false, {\"member key\": \"val\", \"ruhhhh\": [\"nuh uh\"]}, null],
        \"float\": 6752.88,
        \"subobj\": {
            \"subkey\": \"val\",
            \"sublist\": [\"only member\"]
        }
    }";

    let inline_parsed = parse(inline_str).unwrap();
    let block_parsed = parse(block_str).unwrap();

    let proper_inline = obj(vec![
        ("key", Val::Str(s("val"))),
        ("num", Val::Int(42)),
        ("bool", Val::Bool(true)),
        ("none", Val::Null),
        ("list", Val::Array(vec![Val::Str(s("member1")), Val::Str(s("member2"))])),
        ("subobj", Val::Object(obj(vec![("subkey", Val::Str(s("val")))]))),
    ]);
    let proper_block = obj(vec![
        ("key", Val::Str(s("val"))),
        ("num", Val::Int(42)),
        ("bool", Val::Bool(true)),
        ("none", Val::Null),
        ("list", Val::Array(vec![Val::Str(s("member1")), Val::Str(s("member \"two\""))])),
        (
            "inline list",
            Val::Array(vec![
                Val::Str(s("member1")),
                Val::Str(s("member2")),
                Val::Int(99),
                Val::Bool(false),
                Val::Object(obj(vec![
                    ("member key", Val::Str(s("val"))),
                    ("ruhhhh", Val::Array(vec![Val::Str(s("nuh uh"))])),
                ])),
                Val::Null,
            ]),
        ),
        ("float", Val::Float(s("6752.88"))),
        (
            "subobj",
            Val::Object(obj(vec![
                ("subkey", Val::Str(s("val"))),
                ("sublist", Val::Array(vec![Val::Str(s("only member"))])),
            ])),
        ),
    ]);

    assert_eq!(proper_inline.get("key"), inline_parsed.get("key"));
    assert_eq!(proper_inline.get("num"), inline_parsed.get("num"));
    assert_eq!(proper_inline.get("bool"), inline_parsed.get("bool"));
    assert_eq!(proper_inline.get("none"), inline_parsed.get("none"));
    assert_eq!(proper_inline.get("list"), inline_parsed.get("list"));
    assert_eq!(proper_inline.get("subobj"), inline_parsed.get("subobj"));

    assert_eq!(proper_block.get("key"), block_parsed.get("key"));
    assert_eq!(proper_block.get("num"), block_parsed.get("num"));
    assert_eq!(proper_block.get("bool"), block_parsed.get("bool"));
    assert_eq!(proper_block.get("none"), block_parsed.get("none"));
    assert_eq!(proper_block.get("list"), block_parsed.get("list"));
    assert_eq!(proper_block.get("inline list"), block_parsed.get("inline list"));
    assert_eq!(proper_block.get("float"), block_parsed.get("float"));
    assert_eq!(proper_block.get("subobj"), block_parsed.get("subobj"));
    let float_text = block_parsed.get("float").unwrap().get_float().unwrap();
    assert_eq!(float_text.parse::<f64>().unwrap(), 6752.88);
}

#[test]
fn empty_json() {
    let parsed_ej = parse("{}").unwrap();
    let parsed_eo = parse("{\"key\":{}}").unwrap();
    let parsed_ea = parse("{\"key\":[]}").unwrap();
    let parsed_oea = parse("{\"key\":{\"arr1\":[],\"arr2\":[]}}").unwrap();
    let parsed_aeo = parse("{\"key\":[{},2,{}]}").unwrap();

    let proper_ej = JsonObject::new();
    let proper_eo = obj(vec![("key", Val::Object(JsonObject::new()))]);
    let proper_ea = obj(vec![("key", Val::Array(Vec::new()))]);
    let proper_oea = obj(vec![(
        "key",
        Val::Object(obj(vec![("arr1", Val::Array(Vec::new())), ("arr2", Val::Array(Vec::new()))])),
    )]);
    let proper_aeo = obj(vec![(
        "key",
        Val::Array(vec![Val::Object(JsonObject::new()), Val::Int(2), Val::Object(JsonObject::new())]),
    )]);

    assert_eq!(proper_ej, parsed_ej);
    assert_eq!(proper_eo, parsed_eo);
    assert_eq!(proper_ea, parsed_ea);
    assert_eq!(proper_oea, parsed_oea);
    assert_eq!(proper_aeo, parsed_aeo);
}

#[test]
fn incorrect_json() {
    let missing_val_1 = "{\"key\"}";
    let missing_val_2 = "{\"key\":}";
    let missing_val_3 = "{\"key\":\"}";
    let missing_bracket_1 = "{\"key\":{\"key1\": \"val\"}";
    let missing_bracket_2 = "{\"key\":\"key1\": \"val\"}}";
    let missing_bracket_3 = "{\"key\":[\"val1\", \"val2\"}";
    let missing_bracket_4 = "{\"key\":\"key1\", \"val\"]}";
    let no_comma_1 = "{\"key\": [\"val1\" \"val2\"]}";
    let no_comma_2 = "{\"key\": [\"val1\", \"val2\"] \"key2\": \"val3\"}";
    let no_comma_3 = "{\"key\": {\"key1\": \"val1\"} \"key2\": \"val2\"}";
    let colon_in_array = "{\"key\": [\"foo\", \"bar\": \"baz\"]}";
    let two_colons = "{\"foo\" : \"bar\" : \"baz\"}";

    assert!(parse(missing_val_1).is_err());
    assert!(parse(missing_val_2).is_err());
    assert!(parse(missing_val_3).is_err());
    assert!(parse(missing_bracket_1).is_err());
    assert!(parse(missing_bracket_2).is_err());
    assert!(parse(missing_bracket_3).is_err());
    assert!(parse(missing_bracket_4).is_err());
    assert!(parse(no_comma_1).is_err());
    assert!(parse(no_comma_2).is_err());
    assert!(parse(no_comma_3).is_err());
    assert!(parse(colon_in_array).is_err());
    assert!(parse(two_colons).is_err());
}

#[test]
fn last_write_wins() {
    let parsed = parse("{\"a\":1,\"a\":2}").unwrap();
    assert_eq!(parsed, obj(vec![("a", Val::Int(2))]));
    assert_eq!(parsed.len(), 1);
}

#[test]
fn integer_float_split() {
    let int = parse("{\"n\":42}").unwrap();
    assert_eq!(int.get("n"), Some(&Val::Int(42)));
    let float = parse("{\"n\":42.0}").unwrap();
    assert_eq!(float.get("n"), Some(&Val::Float(s("42.0"))));
    assert_eq!(float.get("n").unwrap().get_float().unwrap().parse::<f64>().unwrap(), 42.0);
}

#[test]
fn nested_structures() {
    let parsed = parse("{\"a\":{\"b\":[1,2,{\"c\":\"d\"}]}}").unwrap();
    let expected = obj(vec![(
        "a",
        Val::Object(obj(vec![(
            "b",
            Val::Array(vec![Val::Int(1), Val::Int(2), Val::Object(obj(vec![("c", Val::Str(s("d")))]))]),
        )])),
    )]);
    assert_eq!(parsed, expected);
}

#[test]
fn malformed_inputs_are_rejected() {
    for text in [
        "{\"key\"}",
        "{\"key\":}",
        "{\"key\":\"}",
        "{\"key\":{\"k\":\"v\"}",
        "{\"key\":[\"a\",\"b\"}",
        "{\"key\":[\"a\" \"b\"]}",
        "{\"a\":\"b\" \"c\":\"d\"}",
        "{\"a\":[\"x\",\"y\":\"z\"]}",
        "{\"a\":\"b\":\"c\"}",
    ] {
        assert!(parse(text).is_err(), "accepted {text}");
    }
}

#[test]
fn quote_styles_are_equivalent() {
    let single = parse("{'key':\"val\"}").unwrap();
    let double = parse("{\"key\":\"val\"}").unwrap();
    assert_eq!(single, double);
    let inner = parse("{'it\"s':'a \"b\"'}").unwrap();
    assert_eq!(inner, obj(vec![("it\"s", Val::Str(s("a \"b\"")))]));
}

#[test]
fn escapes_keep_the_next_character() {
    let parsed = parse("{\"k\":\"say \\\"hi\\\" \\\\ \\n\"}").unwrap();
    assert_eq!(parsed.get("k"), Some(&Val::Str(s("say \"hi\" \\ n"))));
}

#[test]
fn accessors_are_repeatable_and_narrow() {
    let parsed = parse("{\"s\":\"x\",\"i\":7,\"f\":1.5,\"b\":false,\"z\":null,\"a\":[1],\"o\":{}}").unwrap();
    let s_val = parsed.get("s").unwrap();
    assert_eq!(s_val.get_str(), Ok(s("x")));
    assert_eq!(s_val.get_str(), Ok(s("x")));
    assert_eq!(s_val.get_int(), Err(TypeMismatch));
    for key in ["s", "i", "f", "b", "z", "a", "o"] {
        let v = parsed.get(key).unwrap();
        let oks = [
            v.get_str().is_ok(),
            v.get_int().is_ok(),
            v.get_float().is_ok(),
            v.get_bool().is_ok(),
            v.get_null().is_ok(),
            v.get_array().is_ok(),
            v.get_object().is_ok(),
        ];
        assert_eq!(oks.iter().filter(|b| **b).count(), 1, "key {key}");
    }
    assert_eq!(parsed.get("i").unwrap().get_int(), Ok(7));
    assert_eq!(parsed.get("b").unwrap().get_bool(), Ok(false));
    assert_eq!(parsed.get("z").unwrap().get_null(), Ok(()));
    assert_eq!(parsed.get("a").unwrap().get_array(), Ok(vec![Val::Int(1)]));
    assert_eq!(parsed.get("o").unwrap().get_object(), Ok(JsonObject::new()));
    assert_eq!(parsed.get("a").unwrap().type_of(), "array");
    assert_eq!(parsed.get("f").unwrap().type_of(), "float");
    assert_eq!(parsed.get("missing"), None);
}

#[test]
fn error_kinds_and_offsets() {
    let e = parse("  [").unwrap_err();
    assert_eq!(e.kind, JsonErrorKind::StructuralMismatch);
    assert_eq!(e.offset, 2);
    assert_eq!(e.found, Some('['));
    let e = parse("{\"a\":-1}").unwrap_err();
    assert_eq!(e.kind, JsonErrorKind::InvalidCharacter);
    assert_eq!(e.offset, 5);
    let e = parse("{\"a\":1.2.3}").unwrap_err();
    assert_eq!(e.kind, JsonErrorKind::NumberFormat);
    let e = parse("{\"a\":1.}").unwrap_err();
    assert_eq!(e.kind, JsonErrorKind::NumberFormat);
    let e = parse("{\"a\":12x}").unwrap_err();
    assert_eq!(e.kind, JsonErrorKind::NumberFormat);
    let e = parse("{\"a\":tru}").unwrap_err();
    assert_eq!(e.kind, JsonErrorKind::BoolOrNullFormat);
    let e = parse("{\"a\":nulx}").unwrap_err();
    assert_eq!(e.kind, JsonErrorKind::BoolOrNullFormat);
    let e = parse("{\"a\":[1,2]").unwrap_err();
    assert_eq!(e.kind, JsonErrorKind::Incomplete);
    assert_eq!(e.offset, 10);
    assert_eq!(e.found, None);
    let e = parse("").unwrap_err();
    assert_eq!(e.kind, JsonErrorKind::Incomplete);
    let e = parse("{\"a\":1,}").unwrap_err();
    assert_eq!(e.kind, JsonErrorKind::StructuralMismatch);
    assert_eq!(e.message(), "misplaced or mismatched structural character at char 7");
}

#[test]
fn numbers_at_the_edges() {
    let parsed = parse("{\"max\":170141183460469231731687303715884105727,\"half\":.5}").unwrap();
    assert_eq!(parsed.get("max"), Some(&Val::Int(i128::MAX)));
    assert_eq!(parsed.get("half"), Some(&Val::Float(s("0.5"))));
    let e = parse("{\"big\":170141183460469231731687303715884105728}").unwrap_err();
    assert_eq!(e.kind, JsonErrorKind::NumberFormat);
    let spaced = parse("{ \"n\" : 42 , \"t\" : true\n}").unwrap();
    assert_eq!(spaced, obj(vec![("n", Val::Int(42)), ("t", Val::Bool(true))]));
}

#[test]
fn trailing_text_is_ignored() {
    let parsed = parse("\n {\"a\":\"b\"} trailing ]]").unwrap();
    assert_eq!(parsed, obj(vec![("a", Val::Str(s("b")))]));
}

#[test]
fn deep_nesting_does_not_exhaust_the_stack() {
    let depth = 10_000;
    let text = format!("{{\"a\":{}{}}}", "[".repeat(depth), "]".repeat(depth));
    let parsed = parse(&text).unwrap();
    assert_eq!(parsed.len(), 1);
}

#[test]
fn rendered_objects_read_back() {
    let text = "{'a\\'b':'x\\\\y','n':[0,1.25,true,null,{}],'o':{'k':'v'}}";
    let parsed = parse(text).unwrap();
    let expected = obj(vec![
        ("a'b", Val::Str(s("x\\y"))),
        (
            "n",
            Val::Array(vec![
                Val::Int(0),
                Val::Float(s("1.25")),
                Val::Bool(true),
                Val::Null,
                Val::Object(JsonObject::new()),
            ]),
        ),
        ("o", Val::Object(obj(vec![("k", Val::Str(s("v")))]))),
    ]);
    assert_eq!(parsed, expected);
}
