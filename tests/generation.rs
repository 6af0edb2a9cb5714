use pseudo_enum::document::{
    assemble, EnumDictDefinition, EnumInverseValueDictDefinition, EnumListDefinition,
    EnumTypeDefinition, EnumValueDictDefinition,
};
use pseudo_enum::format::{
    dump, luau_style, CallParens, Collapse, IndentKind, LineEnding, NameSpacing, Quotes,
};
use pseudo_enum::model::{enums_from_raw, Enum, EnumSetConfig, LuauName, RawEnumBody, RawScalar};

const TOML_STR: &str = r#"
build_path = "src/Shared/Enums.luau"
use_union_types_for_export = true
use_union_types_for_parameters = true
assign_static_strings = true
[enums]
MapType = ["City", "PowerLab"]
RunMode = ["Dev", "Live"]
EffectClassId = ["None", "Grow", "Forcefield"]
MoveClassId = ["None", "Flight", "SuperSpeed"]
EquipContext = ["Right", "Left", "Dual"]
ToolClassId = ["BladeCutlass"]
ToolEvent = ["Primary", "Secondary"]
	"#;

fn scalar(v: &toml::Value) -> RawScalar {
    match v {
        toml::Value::String(s) => RawScalar::Text(s.clone()),
        toml::Value::Integer(i) => RawScalar::Integer(*i),
        _ => RawScalar::Other,
    }
}

fn body(v: &toml::Value) -> RawEnumBody {
    match v {
        toml::Value::Array(a) => RawEnumBody::Sequence(a.iter().map(scalar).collect()),
        toml::Value::Table(t) => {
            RawEnumBody::Table(t.iter().map(|(k, v)| (k.clone(), scalar(v))).collect())
        }
        _ => RawEnumBody::Other,
    }
}

fn config_from_toml(text: &str) -> Result<EnumSetConfig, String> {
    let table: toml::Table = toml::from_str(text).map_err(|e| e.to_string())?;
    let flag = |k: &str| table.get(k).and_then(|v| v.as_bool()).unwrap_or(false);
    let defs: Vec<(String, RawEnumBody)> = match table.get("enums") {
        Some(toml::Value::Table(t)) => t.iter().map(|(k, v)| (k.clone(), body(v))).collect(),
        _ => Vec::new(),
    };
    Ok(EnumSetConfig {
        build_path: table.get("build_path").and_then(|v| v.as_str()).map(|s| s.to_string()),
        use_union_types_for_export: flag("use_union_types_for_export"),
        use_union_types_for_parameters: flag("use_union_types_for_parameters"),
        assign_static_strings: flag("assign_static_strings"),
        enums: enums_from_raw(&defs)?,
    })
}

fn texts(names: &[&str]) -> Vec<RawScalar> {
    names.iter().map(|n| RawScalar::Text(n.to_string())).collect()
}

fn test_enum() -> Enum {
    Enum::from_sequence("TestEnum", &texts(&["Test1", "Test2"])).unwrap()
}

fn config_of(enums: Vec<Enum>, static_strings: bool) -> EnumSetConfig {
    EnumSetConfig {
        build_path: None,
        use_union_types_for_export: true,
        use_union_types_for_parameters: true,
        assign_static_strings: static_strings,
        enums,
    }
}

fn members(e: &Enum) -> Vec<(String, u16)> {
    e.items.iter().map(|i| (i.name.as_str().to_string(), i.value)).collect()
}

#[test]
fn deserialize_config() {
    let config = config_from_toml(TOML_STR).expect("Failed to parse toml");
    println!("config {:#?}", config);
    assert_eq!(config.enums.len(), 7);
    assert_eq!(config.build_path.as_deref(), Some("src/Shared/Enums.luau"));
    assert!(config.assign_static_strings);
}

#[test]
fn parse_config() {
    let config = config_from_toml(TOML_STR).expect("Failed to parse toml");
    let out = dump(config).expect("formatting failed");
    println!("result:\n{}", out);
    assert!(out.starts_with("--!strict"));
}

#[test]
fn identifier_accepts_letters_digits_underscore() {
    assert_eq!(LuauName::new("Power_Lab2").unwrap().as_str(), "Power_Lab2");
}

#[test]
fn identifier_rejects_space() {
    assert_eq!(
        LuauName::new("Bad Name").unwrap_err(),
        "EnumValue 'Bad Name' has bad character"
    );
}

#[test]
fn identifier_rejects_empty() {
    assert_eq!(LuauName::new("").unwrap_err(), "EnumValue name is empty");
}

#[test]
fn invalid_member_name_produces_no_document() {
    let defs = vec![(
        "Good".to_string(),
        RawEnumBody::Sequence(texts(&["Fine", "Bad Name"])),
    )];
    assert_eq!(
        enums_from_raw(&defs).unwrap_err(),
        "EnumValue 'Bad Name' has bad character"
    );
}

#[test]
fn invalid_enum_name_is_refused() {
    let defs = vec![("Bad Name".to_string(), RawEnumBody::Sequence(texts(&["A"])))];
    assert_eq!(
        enums_from_raw(&defs).unwrap_err(),
        "EnumValue 'Bad Name' has bad character"
    );
}

#[test]
fn sequential_form_numbers_from_one() {
    let e = test_enum();
    assert_eq!(e.name.as_str(), "TestEnum");
    assert_eq!(
        members(&e),
        vec![("Test1".to_string(), 1), ("Test2".to_string(), 2)]
    );
}

#[test]
fn sequential_form_refuses_non_string() {
    let entries = vec![RawScalar::Text("A".to_string()), RawScalar::Integer(3)];
    assert_eq!(
        Enum::from_sequence("E", &entries).unwrap_err(),
        "Expected string in array"
    );
}

#[test]
fn keyed_form_sorts_by_value() {
    let entries = vec![
        ("Tablet".to_string(), RawScalar::Integer(250)),
        ("Console".to_string(), RawScalar::Integer(300)),
        ("Phone".to_string(), RawScalar::Integer(100)),
    ];
    let e = Enum::from_table("Device", &entries).unwrap();
    assert_eq!(
        members(&e),
        vec![
            ("Phone".to_string(), 100),
            ("Tablet".to_string(), 250),
            ("Console".to_string(), 300)
        ]
    );
    let list = EnumListDefinition { value: e, is_frozen: true }.render();
    assert_eq!(
        list,
        "local DeviceList = table.freeze({\"Phone\",\"Tablet\",\"Console\"})"
    );
}

#[test]
fn keyed_form_keeps_order_of_equal_values() {
    let entries = vec![
        ("B".to_string(), RawScalar::Integer(5)),
        ("A".to_string(), RawScalar::Integer(5)),
        ("C".to_string(), RawScalar::Integer(1)),
    ];
    let e = Enum::from_table("E", &entries).unwrap();
    assert_eq!(
        members(&e),
        vec![("C".to_string(), 1), ("B".to_string(), 5), ("A".to_string(), 5)]
    );
}

#[test]
fn keyed_form_refuses_non_integer() {
    let entries = vec![("A".to_string(), RawScalar::Text("x".to_string()))];
    assert_eq!(
        Enum::from_table("E", &entries).unwrap_err(),
        "Expected integer in table"
    );
}

#[test]
fn keyed_form_refuses_out_of_range() {
    let entries = vec![("A".to_string(), RawScalar::Integer(65536))];
    assert_eq!(
        Enum::from_table("E", &entries).unwrap_err(),
        "Integer out of range in table"
    );
    let entries = vec![("A".to_string(), RawScalar::Integer(-1))];
    assert_eq!(
        Enum::from_table("E", &entries).unwrap_err(),
        "Integer out of range in table"
    );
}

#[test]
fn keyed_form_accepts_bounds() {
    let entries = vec![
        ("Top".to_string(), RawScalar::Integer(65535)),
        ("Zero".to_string(), RawScalar::Integer(0)),
    ];
    let e = Enum::from_table("E", &entries).unwrap();
    assert_eq!(
        EnumValueDictDefinition { value: e, is_frozen: false }.render(),
        "local EValueDict = {\n\tZero=0,\n\tTop=65535\n}"
    );
}

#[test]
fn other_definition_is_refused() {
    let defs = vec![("E".to_string(), RawEnumBody::Other)];
    assert_eq!(
        enums_from_raw(&defs).unwrap_err(),
        "Expected array or table for enum definition"
    );
}

#[test]
fn type_alias_fragment() {
    let e = test_enum();
    assert_eq!(
        EnumTypeDefinition { value: e.clone(), is_exported: true }.render(),
        "export type TestEnum = \"Test1\" | \"Test2\""
    );
    assert_eq!(
        EnumTypeDefinition { value: e, is_exported: false }.render(),
        "type TestEnum = \"Test1\" | \"Test2\""
    );
}

#[test]
fn list_fragment() {
    let e = test_enum();
    assert_eq!(
        EnumListDefinition { value: e.clone(), is_frozen: true }.render(),
        "local TestEnumList = table.freeze({\"Test1\",\"Test2\"})"
    );
    assert_eq!(
        EnumListDefinition { value: e, is_frozen: false }.render(),
        "local TestEnumList = {\"Test1\",\"Test2\"}"
    );
}

#[test]
fn list_fragment_keeps_member_order() {
    let e = Enum::from_sequence("Letters", &texts(&["A", "B", "C"])).unwrap();
    assert_eq!(
        members(&e),
        vec![("A".to_string(), 1), ("B".to_string(), 2), ("C".to_string(), 3)]
    );
    let list = EnumListDefinition { value: e, is_frozen: true }.render();
    assert_eq!(list, "local LettersList = table.freeze({\"A\",\"B\",\"C\"})");
}

#[test]
fn dict_fragment() {
    let e = test_enum();
    assert_eq!(
        EnumDictDefinition { value: e.clone(), is_frozen: true, assign_as_static_string: true }
            .render(),
        "local TestEnumDict = table.freeze({\n\tTest1=\"Test1\" :: \"Test1\",\n\tTest2=\"Test2\" :: \"Test2\"\n})"
    );
    assert_eq!(
        EnumDictDefinition { value: e, is_frozen: false, assign_as_static_string: false }.render(),
        "local TestEnumDict = {\n\tTest1=\"Test1\" :: TestEnum,\n\tTest2=\"Test2\" :: TestEnum\n}"
    );
}

#[test]
fn value_dict_fragment() {
    let e = test_enum();
    assert_eq!(
        EnumValueDictDefinition { value: e, is_frozen: true }.render(),
        "local TestEnumValueDict = table.freeze({\n\tTest1=1,\n\tTest2=2\n})"
    );
}

#[test]
fn inverse_value_dict_fragment() {
    let e = test_enum();
    assert_eq!(
        EnumInverseValueDictDefinition {
            value: e.clone(),
            is_frozen: true,
            assign_as_static_string: true
        }
        .render(),
        "local TestEnumInverseValueDict = table.freeze({\n\t[1]=\"Test1\",\n\t[2]=\"Test2\"\n})"
    );
    assert_eq!(
        EnumInverseValueDictDefinition {
            value: e,
            is_frozen: false,
            assign_as_static_string: false
        }
        .render(),
        "local TestEnumInverseValueDict = {\n\t[1]=\"Test1\" :: TestEnum,\n\t[2]=\"Test2\" :: TestEnum\n}"
    );
}

#[test]
fn empty_enum_fragments() {
    let e = Enum::from_sequence("Empty", &Vec::new()).unwrap();
    assert_eq!(
        EnumListDefinition { value: e.clone(), is_frozen: true }.render(),
        "local EmptyList = table.freeze({})"
    );
    assert_eq!(
        EnumValueDictDefinition { value: e, is_frozen: true }.render(),
        "local EmptyValueDict = table.freeze({\n})"
    );
}

#[test]
fn variable_names() {
    let e = test_enum();
    assert_eq!(
        EnumListDefinition { value: e.clone(), is_frozen: true }.get_variable_name(),
        "TestEnumList"
    );
    assert_eq!(
        EnumDictDefinition { value: e.clone(), is_frozen: true, assign_as_static_string: true }
            .get_variable_name(),
        "TestEnumDict"
    );
    assert_eq!(
        EnumValueDictDefinition { value: e.clone(), is_frozen: true }.get_variable_name(),
        "TestEnumValueDict"
    );
    assert_eq!(
        EnumInverseValueDictDefinition { value: e, is_frozen: true, assign_as_static_string: true }
            .get_variable_name(),
        "TestEnumInverseValueDict"
    );
}

#[test]
fn assembled_document_for_one_enum() {
    let doc = assemble(&config_of(vec![test_enum()], true));
    let expected = [
        "--!strict",
        "\n-- DO NOT EDIT MANUALLY!! This file was generated by nightcycle/pseudo-enum, edits will likely be overwritten!",
        "\nexport type TestEnum = \"Test1\" | \"Test2\"",
        "\nlocal TestEnumList = table.freeze({\"Test1\",\"Test2\"})",
        "\nlocal TestEnumDict = table.freeze({\n\tTest1=\"Test1\" :: \"Test1\",\n\tTest2=\"Test2\" :: \"Test2\"\n})",
        "\nlocal TestEnumValueDict = table.freeze({\n\tTest1=1,\n\tTest2=2\n})",
        "\nlocal TestEnumInverseValueDict = table.freeze({\n\t[1]=\"Test1\",\n\t[2]=\"Test2\"\n})",
        "\nlocal listTree = {\n\tTestEnum = TestEnumList,\n}\ntable.freeze(listTree)",
        "\nlocal valueTree = {\n\tTestEnum = TestEnumValueDict,\n}\ntable.freeze(valueTree)",
        "\nlocal invValueTree = {\n\tTestEnum = TestEnumInverseValueDict,\n}\ntable.freeze(invValueTree)",
        "\nexport type EnumName = \"TestEnum\"",
        "\nreturn {",
        "\n\tgetEnumItems = function(enumName: EnumName)",
        "\n\t\tlocal list = listTree[enumName]",
        "\n\t\tassert(list, `invalid enumName: \"{enumName}\"`)",
        "\n\t\treturn list",
        "\n\tend :: (((\"TestEnum\") -> {TestEnum})),",
        "\n\tgetEnumItemFromValue = function(enumName: EnumName, value: number)",
        "\n\t\tlocal dict = invValueTree[enumName]",
        "\n\t\tassert(dict, `invalid enumName: \"{enumName}\"`)",
        "\n\t\tlocal name = dict[value]",
        "\n\t\tassert(name, `invalid value: \"{enumName}\" -> {value}`)",
        "\n\t\treturn name",
        "\n\tend :: (((\"TestEnum\", number) -> TestEnum)),",
        "\n\tgetValueFromEnumItem = function(enumName: EnumName, name: string): number",
        "\n\t\tlocal dict = valueTree[enumName]",
        "\n\t\tassert(dict, `invalid enumName: \"{enumName}\"`)",
        "\n\t\tlocal value = dict[name]",
        "\n\t\tassert(value, `invalid value: \"{enumName}\" -> \"{name}\"`)",
        "\n\t\treturn value",
        "\n\tend :: (((\"TestEnum\", TestEnum) -> number)),",
        "\n\tTestEnum = TestEnumDict,",
        "\n}",
    ]
    .concat();
    assert_eq!(doc, expected);
}

#[test]
fn union_and_intersections_over_two_enums() {
    let a = test_enum();
    let b = Enum::from_sequence("Mode", &texts(&["Dev"])).unwrap();
    let doc = assemble(&config_of(vec![a, b], true));
    assert!(doc.contains("\nexport type EnumName = \"TestEnum\" | \"Mode\"\n"));
    assert!(doc.contains("end :: (((\"TestEnum\") -> {TestEnum}) & ((\"Mode\") -> {Mode})),"));
    assert!(doc.contains(
        "end :: (((\"TestEnum\", number) -> TestEnum) & ((\"Mode\", number) -> Mode)),"
    ));
    assert!(doc.contains(
        "end :: (((\"TestEnum\", TestEnum) -> number) & ((\"Mode\", Mode) -> number)),"
    ));
}

#[test]
fn assembly_is_deterministic() {
    let config = config_from_toml(TOML_STR).unwrap();
    assert_eq!(assemble(&config), assemble(&config.clone()));
    assert_eq!(dump(config.clone()).unwrap(), dump(config).unwrap());
}

#[test]
fn declarations_come_before_references() {
    let config = config_from_toml(TOML_STR).unwrap();
    let doc = assemble(&config);
    for e in &config.enums {
        let n = e.name.as_str();
        for suffix in ["List", "Dict", "ValueDict", "InverseValueDict"] {
            let decl = format!("local {}{} = ", n, suffix);
            let reference = format!("\n\t{} = {}{},", n, n, suffix);
            let p = doc.find(&decl).expect("declared");
            let q = doc.find(&reference).expect("referenced");
            assert!(p < q, "{} before {}", decl, reference);
        }
    }
}

#[test]
fn sections_have_one_entry_per_enum() {
    let config = config_from_toml(TOML_STR).unwrap();
    let doc = assemble(&config);
    let n = config.enums.len();
    assert_eq!(n, 7);
    assert_eq!(doc.matches("\nexport type ").count(), n + 1);
    assert_eq!(doc.matches("List = table.freeze({").count(), n);
    assert_eq!(doc.matches("ValueDict = table.freeze({").count(), 2 * n);
    assert_eq!(doc.matches("InverseValueDict = table.freeze({").count(), n);
    assert_eq!(doc.matches("Dict = table.freeze({").count(), 3 * n);
    let tree = |name: &str| {
        let start = doc.find(&format!("local {} = {{", name)).unwrap();
        let end = start + doc[start..].find("\n}").unwrap();
        doc[start..end].matches("\n\t").count()
    };
    assert_eq!(tree("listTree"), n);
    assert_eq!(tree("valueTree"), n);
    assert_eq!(tree("invValueTree"), n);
    let union_line = doc.lines().find(|l| l.starts_with("export type EnumName = ")).unwrap();
    assert_eq!(union_line.matches(" | ").count(), n - 1);
}

#[test]
fn value_tables_are_inverse() {
    let e = Enum::from_sequence("Letters", &texts(&["A", "B", "C"])).unwrap();
    let values = EnumValueDictDefinition { value: e.clone(), is_frozen: true }.render();
    let inverse = EnumInverseValueDictDefinition {
        value: e.clone(),
        is_frozen: true,
        assign_as_static_string: true,
    }
    .render();
    for item in &e.items {
        let n = item.name.as_str();
        assert!(values.contains(&format!("\t{}={}", n, item.value)));
        assert!(inverse.contains(&format!("\t[{}]=\"{}\"", item.value, n)));
    }
}

#[test]
fn module_style_is_fixed() {
    let style = luau_style();
    assert_eq!(style.column_width, 200);
    assert_eq!(style.indent_width, 5);
    assert_eq!(style.line_endings, LineEnding::Windows);
    assert_eq!(style.indent, IndentKind::Tabs);
    assert_eq!(style.quotes, Quotes::PreferDouble);
    assert_eq!(style.calls, CallParens::Always);
    assert_eq!(style.collapse, Collapse::ConditionalOnly);
    assert_eq!(style.name_spacing, NameSpacing::Never);
}

#[test]
fn formatting_rewrites_the_assembled_text() {
    let config = config_of(vec![test_enum()], true);
    let raw = assemble(&config);
    let out = dump(config).unwrap();
    assert_ne!(out, raw);
    assert!(out.starts_with("--!strict\r\n"));
    assert_eq!(out.matches('\n').count(), out.matches("\r\n").count());
    assert!(out.contains("local TestEnumList = table.freeze({ \"Test1\", \"Test2\" })"));
}

#[test]
fn formatting_is_idempotent() {
    let config = config_from_toml(TOML_STR).unwrap();
    let once = dump(config).unwrap();
    #[allow(deprecated)]
    let style = stylua_lib::Config {
        syntax: stylua_lib::LuaVersion::Luau,
        column_width: 200,
        line_endings: stylua_lib::LineEndings::Windows,
        indent_type: stylua_lib::IndentType::Tabs,
        indent_width: 5,
        quote_style: stylua_lib::QuoteStyle::AutoPreferDouble,
        call_parentheses: stylua_lib::CallParenType::Always,
        collapse_simple_statement: stylua_lib::CollapseSimpleStatement::ConditionalOnly,
        space_after_function_names: stylua_lib::SpaceAfterFunctionNames::Never,
        ..stylua_lib::Config::default()
    };
    let twice =
        stylua_lib::format_code(&once, style, None, stylua_lib::OutputVerification::None).unwrap();
    assert_eq!(once, twice);
}

#[test]
fn identifier_parses_from_str() {
    let name: LuauName = "Device".parse().unwrap();
    assert_eq!(name.as_str(), "Device");
    assert!("no-dash".parse::<LuauName>().is_err());
}

#[test]
fn tables_are_declared_before_the_returned_table() {
    let config = config_from_toml(TOML_STR).unwrap();
    let doc = assemble(&config);
    let ret = doc.find("\nreturn {").unwrap();
    for tree in ["listTree", "valueTree", "invValueTree"] {
        assert!(doc.find(&format!("\nlocal {} = {{", tree)).unwrap() < ret);
    }
    for e in &config.enums {
        assert!(doc.find(&format!("local {}Dict =", e.name.as_str())).unwrap() < ret);
    }
}

#[test]
fn value_tables_hold_each_member_once() {
    let entries = vec![
        ("Phone".to_string(), RawScalar::Integer(100)),
        ("Tablet".to_string(), RawScalar::Integer(250)),
        ("Console".to_string(), RawScalar::Integer(300)),
    ];
    let e = Enum::from_table("Device", &entries).unwrap();
    let values = EnumValueDictDefinition { value: e.clone(), is_frozen: true }.render();
    let body = &values["local DeviceValueDict = table.freeze({".len()..values.len() - "\n})".len()];
    let pieces: Vec<&str> = body.split(',').collect();
    assert_eq!(pieces, vec!["\n\tPhone=100", "\n\tTablet=250", "\n\tConsole=300"]);
    let inverse = EnumInverseValueDictDefinition {
        value: e,
        is_frozen: true,
        assign_as_static_string: false,
    }
    .render();
    let body = &inverse
        ["local DeviceInverseValueDict = table.freeze({".len()..inverse.len() - "\n})".len()];
    let pieces: Vec<&str> = body.split(',').collect();
    assert_eq!(
        pieces,
        vec![
            "\n\t[100]=\"Phone\" :: Device",
            "\n\t[250]=\"Tablet\" :: Device",
            "\n\t[300]=\"Console\" :: Device"
        ]
    );
}

#[test]
fn identifier_accepts_unicode_alphanumerics() {
    assert_eq!(LuauName::new("\u{e9}").unwrap().as_str(), "\u{e9}");
    assert!(LuauName::new("\u{d1}and\u{fa}_1").is_ok());
    assert!(LuauName::new("\u{663}").is_ok());
    assert!(LuauName::new("a-b").is_err());
    assert!(LuauName::new("\u{2014}").is_err());
}
