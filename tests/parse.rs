use dofuscator::{
    char_type_to_type, detect_var_type_with_name, string_type_to_type, string_var_to_arg,
    Actionscript, Arg, Class, Type,
};

fn model(src: &str) -> Class {
    Actionscript::from_buffer(src.as_bytes()).to_object()
}

fn assert_arg(arg: &Arg, name: &str, var_type: Type, value: &str) {
    assert_eq!(arg.name, name);
    assert_eq!(arg.var_type, var_type);
    assert_eq!(arg.value, value);
}

#[test]
fn header_with_extends_and_implements() {
    let c = model("class Foo extends Bar implements IBaz { }");
    assert_eq!(c.name, "Foo");
    assert_eq!(c.extends, "Bar");
    assert_eq!(c.implements, "IBaz");
    assert!(c.functions.is_empty());
    assert!(c.members.is_empty());
}

#[test]
fn header_without_clauses() {
    let c = model("class Foo { }");
    assert_eq!(c.name, "Foo");
    assert_eq!(c.extends, "");
    assert_eq!(c.implements, "");
    assert!(c.functions.is_empty());
}

#[test]
fn empty_source_gives_empty_model() {
    let c = Actionscript::from_vector(Vec::new()).to_object();
    assert_eq!(c.name, "");
    assert_eq!(c.extends, "");
    assert_eq!(c.implements, "");
    assert!(c.functions.is_empty());
    assert!(c.members.is_empty());
}

#[test]
fn unterminated_class_name_is_empty() {
    let c = model("class Foo");
    assert_eq!(c.name, "");
}

#[test]
fn clauses_bind_after_the_class_keyword() {
    let c = model("extends Early class Foo extends Bar\n{ }");
    assert_eq!(c.name, "Foo");
    assert_eq!(c.extends, "Bar");
}

#[test]
fn function_with_annotated_args() {
    let c = model("function foo(a:String, b:Number = 5) { }");
    assert_eq!(c.functions.len(), 1);
    let f = &c.functions[0];
    assert!(!f.is_static);
    assert_eq!(f.name, "foo");
    assert_eq!(f.args.len(), 2);
    assert_arg(&f.args[0], "a", Type::String, "");
    assert_arg(&f.args[1], "b", Type::Number, "5");
    assert!(f.lines.is_empty());
}

#[test]
fn function_inside_class() {
    let c = model("class A { function foo(a:String, b:Number = 5) { } }");
    assert_eq!(c.name, "A");
    assert_eq!(c.functions.len(), 1);
    assert_eq!(c.functions[0].name, "foo");
    assert_arg(&c.functions[0].args[1], "b", Type::Number, "5");
}

#[test]
fn static_function_without_args() {
    let c = model("static function Bar() { }");
    assert_eq!(c.functions.len(), 1);
    let f = &c.functions[0];
    assert!(f.is_static);
    assert_eq!(f.name, "Bar");
    assert!(f.args.is_empty());
}

#[test]
fn nested_braces_end_at_outer_brace() {
    let c = model("class A { function f() { if (true) { function h() { } } } function g() { } }");
    assert_eq!(c.functions.len(), 2);
    assert_eq!(c.functions[0].name, "f");
    assert_eq!(c.functions[1].name, "g");
}

#[test]
fn nested_braces_single_function() {
    let c = model("function f() { if (true) { } } function g() { }");
    assert_eq!(c.functions.len(), 2);
    assert_eq!(c.functions[0].name, "f");
    assert_eq!(c.functions[1].name, "g");
}

#[test]
fn hungarian_names() {
    assert_arg(&string_var_to_arg(b"sName"), "sName", Type::String, "");
    assert_arg(&string_var_to_arg(b"_oData"), "_oData", Type::Object, "");
    assert_arg(&string_var_to_arg(b"_nCount"), "_nCount", Type::Number, "");
    assert_arg(&string_var_to_arg(b"aItems = []"), "aItems", Type::Array, "[]");
    assert_arg(&string_var_to_arg(b"bOk"), "bOk", Type::Boolean, "");
}

#[test]
fn hungarian_names_through_the_model() {
    let c = model("class A { function f(sName, _oData) { } }");
    let f = &c.functions[0];
    assert_arg(&f.args[0], "sName", Type::String, "");
    assert_arg(&f.args[1], "_oData", Type::Object, "");
}

#[test]
fn functions_keep_declaration_order() {
    let c = model("class A { static function a() {} function b() {} static function c() {} }");
    let names: Vec<&str> = c.functions.iter().map(|f| f.name.as_str()).collect();
    assert_eq!(names, vec!["a", "b", "c"]);
    let statics: Vec<bool> = c.functions.iter().map(|f| f.is_static).collect();
    assert_eq!(statics, vec![true, false, true]);
}

#[test]
fn parsing_twice_gives_the_same_model() {
    let src = "class A extends B { static function a(sX:String = \"q\") { { } } function b(n) {} }";
    let parser = Actionscript::from_buffer(src.as_bytes());
    let first = parser.to_object();
    let second = parser.to_object();
    assert_eq!(format!("{:?}", first), format!("{:?}", second));
    let third = Actionscript::from_vector(src.as_bytes().to_vec()).to_object();
    assert_eq!(format!("{:?}", first), format!("{:?}", third));
}

#[test]
fn short_names_fall_back_to_object() {
    assert_eq!(detect_var_type_with_name(b""), Type::Object);
    assert_eq!(detect_var_type_with_name(b"s"), Type::Object);
    assert_eq!(detect_var_type_with_name(b"sN"), Type::String);
    assert_eq!(detect_var_type_with_name(b"_s"), Type::Object);
    assert_eq!(detect_var_type_with_name(b"name"), Type::Object);
    assert_eq!(detect_var_type_with_name(b"xName"), Type::Object);
}

#[test]
fn explicit_types_are_exact() {
    assert_eq!(string_type_to_type(b"String"), Type::String);
    assert_eq!(string_type_to_type(b"Number"), Type::Number);
    assert_eq!(string_type_to_type(b"Array"), Type::Array);
    assert_eq!(string_type_to_type(b"Boolean"), Type::Boolean);
    assert_eq!(string_type_to_type(b"string"), Type::Object);
    assert_eq!(string_type_to_type(b"MovieClip"), Type::Object);
}

#[test]
fn letter_codes() {
    assert_eq!(char_type_to_type(b's'), Type::String);
    assert_eq!(char_type_to_type(b'n'), Type::Number);
    assert_eq!(char_type_to_type(b'a'), Type::Array);
    assert_eq!(char_type_to_type(b'b'), Type::Boolean);
    assert_eq!(char_type_to_type(b'o'), Type::Object);
}

#[test]
fn annotation_overrides_the_name() {
    assert_arg(&string_var_to_arg(b"sName:Number"), "sName", Type::Number, "");
    assert_arg(&string_var_to_arg(b"x : MovieClip = null"), "x", Type::Object, "null");
    assert_arg(&string_var_to_arg(b"a:b:Array"), "a:b", Type::Array, "");
}

#[test]
fn value_without_annotation() {
    assert_arg(&string_var_to_arg(b"nCount = 3"), "nCount", Type::Number, "3");
    assert_arg(&string_var_to_arg(b"x = a:b"), "x", Type::Object, "a:b");
}

#[test]
fn empty_fragments_are_object_args() {
    assert_arg(&string_var_to_arg(b""), "", Type::Object, "");
    let c = model("function f(a, ) { }");
    assert_eq!(c.functions[0].args.len(), 2);
    assert_arg(&c.functions[0].args[1], "", Type::Object, "");
}

#[test]
fn accessor_keeps_last_word() {
    let c = model("class A { function get  size() { } }");
    assert_eq!(c.functions[0].name, "size");
}

#[test]
fn missing_parenthesis_gives_partial_function() {
    let c = model("class A { function broken");
    assert_eq!(c.functions.len(), 1);
    assert_eq!(c.functions[0].name, "");
    let c = model("class A { function open(a, b");
    assert_eq!(c.functions.len(), 1);
    assert_eq!(c.functions[0].name, "open");
    assert!(c.functions[0].args.is_empty());
}

#[test]
fn unterminated_body_ends_the_scan() {
    let c = model("class A { function f() { function g() { }");
    assert_eq!(c.functions.len(), 1);
    assert_eq!(c.functions[0].name, "f");
}

#[test]
fn static_fields_are_not_members() {
    let c = model("class A { static var x = 1; static function s() { } }");
    assert!(c.members.is_empty());
    assert_eq!(c.functions.len(), 1);
    assert_eq!(c.functions[0].name, "s");
    assert!(c.functions[0].is_static);
}

#[test]
fn invalid_utf8_is_replaced() {
    let c = Actionscript::from_buffer(b"class \xffA { }").to_object();
    assert_eq!(c.name, "\u{fffd}A");
    let arg = string_var_to_arg(b"\xffx = \xfe");
    assert_eq!(arg.name, "\u{fffd}x");
    assert_eq!(arg.value, "\u{fffd}");
}

#[test]
fn unicode_whitespace_is_trimmed() {
    let c = model("class A { function f(\u{a0}sName\u{3000}, b:\u{2003}Number\u{85}) { } }");
    let f = &c.functions[0];
    assert_arg(&f.args[0], "sName", Type::String, "");
    assert_arg(&f.args[1], "b", Type::Number, "");
    let c = model("class\u{a0}Foo { }");
    assert_eq!(c.name, "Foo");
}

#[test]
fn name_is_last_whitespace_separated_word() {
    let c = model("class A { function get \tsize() { } function set\u{a0}width() { } }");
    assert_eq!(c.functions[0].name, "size");
    assert_eq!(c.functions[1].name, "width");
}
