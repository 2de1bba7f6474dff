//! End-to-end tests: whole documents through `loads` and the resolution
//! pipeline.
use tyco::TycoError;
use tyco::TycoValue;
use tyco::loads;

fn get_global<'a>(ctx: &'a tyco::TycoContext, name: &str) -> &'a TycoValue {
    ctx.get_global(name).expect("global missing")
}

#[test]
fn parse_twice_is_identical() {
    let src = "str title: \"Doc {version}\"\nstr version: \"1\"\nPerson:\n  *str id:\n  str name:\n- \"p1\", \"Ada\"\n";
    let a = loads(src).unwrap();
    let b = loads(src).unwrap();
    assert_eq!(a, b);
}

#[test]
fn int_array_literal() {
    let ctx = loads("int[] nums: [1, 2, 3]\nint[] none: []\n").unwrap();
    match get_global(&ctx, "nums") {
        TycoValue::Array(items) => {
            assert_eq!(items.len(), 3);
            assert!(matches!(items[0], TycoValue::Int(1)));
            assert!(matches!(items[1], TycoValue::Int(2)));
            assert!(matches!(items[2], TycoValue::Int(3)));
        },
        other => panic!("expected array, got {:?}", other),
    }
    match get_global(&ctx, "none") {
        TycoValue::Array(items) => assert_eq!(items.len(), 0),
        other => panic!("expected array, got {:?}", other),
    }
}

#[test]
fn int_literals_in_globals() {
    let ctx = loads("int a: 0x1F\nint b: 0o17\nint c: 0b101\nint d: -42\n").unwrap();
    assert!(matches!(get_global(&ctx, "a"), TycoValue::Int(31)));
    assert!(matches!(get_global(&ctx, "b"), TycoValue::Int(15)));
    assert!(matches!(get_global(&ctx, "c"), TycoValue::Int(5)));
    assert!(matches!(get_global(&ctx, "d"), TycoValue::Int(-42)));
}

#[test]
fn reference_resolves_to_instance_copy() {
    let src = "Person:\n  *str id:\n  str name:\n- \"p1\", \"Ada\"\n\nPerson friend: Person(\"p1\")\n";
    let ctx = loads(src).unwrap();
    match get_global(&ctx, "friend") {
        TycoValue::Reference(r) => {
            assert_eq!(r.struct_name, "Person");
            assert_eq!(r.primary_key, "p1");
            let inst = r.resolved.as_ref().expect("reference not resolved");
            match inst.get_attribute("id") {
                Some(TycoValue::Str(s)) => assert_eq!(s.value, "p1"),
                other => panic!("bad id: {:?}", other),
            }
            match inst.get_attribute("name") {
                Some(TycoValue::Str(s)) => assert_eq!(s.value, "Ada"),
                other => panic!("bad name: {:?}", other),
            }
        },
        other => panic!("expected reference, got {:?}", other),
    }
}

#[test]
fn missing_reference_key_is_fatal() {
    let src = "Person:\n  *str id:\n- \"p1\"\n\nPerson friend: Person(\"missing\")\n";
    match loads(src) {
        Err(TycoError::Reference(_)) => {},
        other => panic!("expected reference error, got {:?}", other),
    }
}

#[test]
fn unknown_struct_reference_is_fatal() {
    let src = "Ghost friend: Ghost(\"k\")\n";
    match loads(src) {
        Err(TycoError::UnknownStruct(name)) => assert_eq!(name, "Ghost"),
        other => panic!("expected unknown-struct error, got {:?}", other),
    }
}

#[test]
fn template_renders_sibling_field() {
    let src = "Person:\n  *str id:\n  str name:\n  str greet: \"Hello {name}!\"\n- \"p1\", \"Ada\"\n";
    let ctx = loads(src).unwrap();
    let p = ctx.get_struct("Person").unwrap();
    let inst = &p.instances()[0];
    match inst.get_attribute("greet") {
        Some(TycoValue::Str(s)) => {
            assert_eq!(s.value, "Hello Ada!");
            assert!(!s.has_template);
        },
        other => panic!("bad greet: {:?}", other),
    }
}

#[test]
fn unresolved_placeholder_stays_verbatim() {
    let src = "str greeting: \"Hi {nope}\"\n";
    let ctx = loads(src).unwrap();
    match get_global(&ctx, "greeting") {
        TycoValue::Str(s) => assert_eq!(s.value, "Hi {nope}"),
        other => panic!("bad greeting: {:?}", other),
    }
}

#[test]
fn template_reads_globals() {
    let src = "str name: \"World\"\nstr msg: \"Hello {name}\"\n";
    let ctx = loads(src).unwrap();
    match get_global(&ctx, "msg") {
        TycoValue::Str(s) => assert_eq!(s.value, "Hello World"),
        other => panic!("bad msg: {:?}", other),
    }
}

#[test]
fn raw_literal_never_renders() {
    let src = "str name: \"World\"\nstr msg: 'Hello {name}'\n";
    let ctx = loads(src).unwrap();
    match get_global(&ctx, "msg") {
        TycoValue::Str(s) => {
            assert_eq!(s.value, "Hello {name}");
            assert!(s.is_literal);
        },
        other => panic!("bad msg: {:?}", other),
    }
}

#[test]
fn default_applies_when_field_omitted() {
    let src = "Item:\n  *str id:\n  int count: 0\n- \"a\"\n- \"b\", 5\n";
    let ctx = loads(src).unwrap();
    let items = ctx.get_struct("Item").unwrap();
    let first = &items.instances()[0];
    let second = &items.instances()[1];
    assert!(matches!(first.get_attribute("count"), Some(TycoValue::Int(0))));
    assert!(matches!(second.get_attribute("count"), Some(TycoValue::Int(5))));
}

#[test]
fn positional_after_named_is_fatal() {
    let src = "Person:\n  *str id:\n  str name:\n- id: \"a\", \"b\"\n";
    match loads(src) {
        Err(TycoError::Parse { .. }) => {},
        other => panic!("expected parse error, got {:?}", other),
    }
}

#[test]
fn too_many_positional_is_fatal() {
    let src = "Person:\n  *str id:\n- \"a\", \"b\"\n";
    match loads(src) {
        Err(TycoError::Parse { .. }) => {},
        other => panic!("expected parse error, got {:?}", other),
    }
}

#[test]
fn time_and_datetime_fields_normalize() {
    let src = "Event:\n  *str id:\n  time at:\n  datetime when:\n- \"e\", \"12:00:00.5\", \"2024-01-01 10:00:00Z\"\n";
    let ctx = loads(src).unwrap();
    let ev = ctx.get_struct("Event").unwrap();
    let inst = &ev.instances()[0];
    match inst.get_attribute("at") {
        Some(TycoValue::Time(t)) => assert_eq!(t, "12:00:00.500000"),
        other => panic!("bad time: {:?}", other),
    }
    match inst.get_attribute("when") {
        Some(TycoValue::DateTime(t)) => assert_eq!(t, "2024-01-01T10:00:00+00:00"),
        other => panic!("bad datetime: {:?}", other),
    }
}

#[test]
fn float_literal_canonicalized() {
    let ctx = loads("float ratio: 1.50\n").unwrap();
    match get_global(&ctx, "ratio") {
        TycoValue::Float(t) => assert_eq!(t, "1.5"),
        other => panic!("bad float: {:?}", other),
    }
}

#[test]
fn bad_float_is_fatal() {
    match loads("float ratio: not_a_number\n") {
        Err(TycoError::Parse { .. }) => {},
        other => panic!("expected parse error, got {:?}", other),
    }
}

#[test]
fn bad_escape_is_fatal() {
    match loads("str s: \"\\uZZZZ\"\n") {
        Err(TycoError::Parse { .. }) => {},
        other => panic!("expected parse error, got {:?}", other),
    }
}

#[test]
fn null_is_valid_for_any_type() {
    let ctx = loads("int a: null\nstr b: NULL\n").unwrap();
    assert!(matches!(get_global(&ctx, "a"), TycoValue::Null));
    assert!(matches!(get_global(&ctx, "b"), TycoValue::Null));
}

#[test]
fn default_update_changes_later_instances() {
    let src = "Item:\n  *str id:\n  int count: 1\n  count: 7\n- \"a\"\n";
    let ctx = loads(src).unwrap();
    let items = ctx.get_struct("Item").unwrap();
    assert!(matches!(items.instances()[0].get_attribute("count"), Some(TycoValue::Int(7))));
}

#[test]
fn default_update_unknown_field_is_fatal() {
    let src = "Item:\n  *str id:\n  nope: 7\n";
    match loads(src) {
        Err(TycoError::Parse { .. }) => {},
        other => panic!("expected parse error, got {:?}", other),
    }
}

#[test]
fn instance_outside_struct_is_fatal() {
    match loads("- \"a\"\n") {
        Err(TycoError::Parse { .. }) => {},
        other => panic!("expected parse error, got {:?}", other),
    }
}

#[test]
fn comments_and_blank_lines_skipped() {
    let src = "# leading comment\n\nint a: 1 # trailing\n";
    let ctx = loads(src).unwrap();
    assert!(matches!(get_global(&ctx, "a"), TycoValue::Int(1)));
}

#[test]
fn backslash_continuation_joins_lines() {
    let src = "Person:\n  *str id:\n  str name:\n- \"p1\", \\\n  \"Ada\"\n";
    let ctx = loads(src).unwrap();
    let p = ctx.get_struct("Person").unwrap();
    match p.instances()[0].get_attribute("name") {
        Some(TycoValue::Str(s)) => assert_eq!(s.value, "Ada"),
        other => panic!("bad name: {:?}", other),
    }
}

#[test]
fn inline_instance_for_struct_without_key() {
    let src = "Point:\n  str x:\n  str y:\n\nPoint spot: Point(\"1\", \"2\")\n";
    let ctx = loads(src).unwrap();
    match get_global(&ctx, "spot") {
        TycoValue::Instance(inst) => {
            assert_eq!(inst.struct_name, "Point");
            match inst.get_attribute("x") {
                Some(TycoValue::Str(s)) => assert_eq!(s.value, "1"),
                other => panic!("bad x: {:?}", other),
            }
            match inst.get_attribute("y") {
                Some(TycoValue::Str(s)) => assert_eq!(s.value, "2"),
                other => panic!("bad y: {:?}", other),
            }
        },
        other => panic!("expected instance, got {:?}", other),
    }
}

#[test]
fn bool_fields_parse() {
    let ctx = loads("bool yes: true\nbool no: false\n").unwrap();
    assert!(matches!(get_global(&ctx, "yes"), TycoValue::Bool(true)));
    assert!(matches!(get_global(&ctx, "no"), TycoValue::Bool(false)));
}

#[test]
fn bad_bool_is_fatal() {
    match loads("bool flag: maybe\n") {
        Err(TycoError::Parse { .. }) => {},
        other => panic!("expected parse error, got {:?}", other),
    }
}

#[test]
fn later_instance_overwrites_index_key() {
    let src = "Person:\n  *str id:\n  str name:\n- \"p\", \"First\"\n- \"p\", \"Second\"\n\nPerson who: Person(\"p\")\n";
    let ctx = loads(src).unwrap();
    match get_global(&ctx, "who") {
        TycoValue::Reference(r) => {
            let inst = r.resolved.as_ref().unwrap();
            match inst.get_attribute("name") {
                Some(TycoValue::Str(s)) => assert_eq!(s.value, "Second"),
                other => panic!("bad name: {:?}", other),
            }
        },
        other => panic!("expected reference, got {:?}", other),
    }
}

#[test]
fn span_display_renders_caret() {
    let span = tyco::SourceSpan {
        path: None,
        line: 3,
        column: 5,
        line_text: String::from("abcdefg"),
    };
    assert_eq!(span.display(), "Line 3, column 5:\nabcdefg\n    ^");
}

#[test]
fn error_display_carries_kind() {
    let e = TycoError::parse(String::from("broken"));
    assert!(e.is_parse());
    let span = tyco::SourceSpan {
        path: None,
        line: 1,
        column: 1,
        line_text: String::from("x"),
    };
    let e2 = e.with_span(span);
    match e2 {
        TycoError::Parse { message, span } => {
            assert_eq!(message, "broken");
            assert!(span.is_some());
        },
        other => panic!("expected parse error, got {:?}", other),
    }
}

#[test]
fn bare_continuation_joins_instance_line() {
    let src = "Person:\n  *str id:\n  str name:\n- \"p1\",\n  \"Ada\"\n";
    let ctx = loads(src).unwrap();
    let p = ctx.get_struct("Person").unwrap();
    match p.instances()[0].get_attribute("name") {
        Some(TycoValue::Str(s)) => assert_eq!(s.value, "Ada"),
        other => panic!("bad name: {:?}", other),
    }
}

#[test]
fn triple_quoted_default_spans_lines() {
    let src = "str banner: \"\"\"\nfirst\nsecond\"\"\"\n";
    let ctx = loads(src).unwrap();
    match get_global(&ctx, "banner") {
        TycoValue::Str(s) => assert_eq!(s.value, "first\nsecond"),
        other => panic!("bad banner: {:?}", other),
    }
}

#[test]
fn global_prefix_forces_global_scope() {
    let src = "str name: \"TopLevel\"\nPerson:\n  *str id:\n  str name:\n  str about: \"{global.name}\"\n- \"p\", \"Inner\"\n";
    let ctx = loads(src).unwrap();
    let p = ctx.get_struct("Person").unwrap();
    match p.instances()[0].get_attribute("about") {
        Some(TycoValue::Str(s)) => assert_eq!(s.value, "TopLevel"),
        other => panic!("bad about: {:?}", other),
    }
}

#[test]
fn dotted_path_descends_through_reference() {
    let src = "Person:\n  *str id:\n  str name:\n- \"p1\", \"Ada\"\n\nTeam:\n  *str id:\n  Person lead:\n  str label: \"led by {lead.name}\"\n- \"t\", Person(\"p1\")\n";
    let ctx = loads(src).unwrap();
    let t = ctx.get_struct("Team").unwrap();
    match t.instances()[0].get_attribute("label") {
        Some(TycoValue::Str(s)) => assert_eq!(s.value, "led by Ada"),
        other => panic!("bad label: {:?}", other),
    }
}

#[test]
fn later_field_sees_earlier_rendered_value() {
    let src = "Person:\n  *str id:\n  str first: \"{id}-x\"\n  str second: \"[{first}]\"\n- \"a\"\n";
    let ctx = loads(src).unwrap();
    let p = ctx.get_struct("Person").unwrap();
    let inst = &p.instances()[0];
    match inst.get_attribute("first") {
        Some(TycoValue::Str(s)) => assert_eq!(s.value, "a-x"),
        other => panic!("bad first: {:?}", other),
    }
    match inst.get_attribute("second") {
        Some(TycoValue::Str(s)) => assert_eq!(s.value, "[a-x]"),
        other => panic!("bad second: {:?}", other),
    }
}

#[test]
fn string_array_elements_parse_in_order() {
    let ctx = loads("str[] tags: [\"a\", \"b\"]\n").unwrap();
    match get_global(&ctx, "tags") {
        TycoValue::Array(items) => {
            assert_eq!(items.len(), 2);
            match &items[0] {
                TycoValue::Str(s) => assert_eq!(s.value, "a"),
                other => panic!("bad tag: {:?}", other),
            }
            match &items[1] {
                TycoValue::Str(s) => assert_eq!(s.value, "b"),
                other => panic!("bad tag: {:?}", other),
            }
        },
        other => panic!("expected array, got {:?}", other),
    }
}
