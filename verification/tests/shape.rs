use wasm_pkg_client::oci::shape::{
    read_items, DataShape, Extern, NameKind, PartShape, Shape, ShapeKind, TypeShape, TypeTag,
    ValueShape,
};

fn binary(text: &str) -> Vec<u8> {
    wat::parse_str(text).unwrap()
}

fn read(text: &str) -> Vec<(bool, Extern)> {
    read_items(&binary(text)).unwrap()
}

fn shape(kind: ShapeKind) -> Shape {
    Shape { kind, data: None, signature: vec![], imports: vec![], exports: vec![] }
}

fn ty(id: usize, tag: TypeTag, parts: Vec<PartShape>) -> TypeShape {
    TypeShape { id, tag, handle: None, parts }
}

fn part(name: &str, value: ValueShape) -> PartShape {
    PartShape { name: name.to_string(), value }
}

fn data(created: usize, ty: TypeShape) -> Shape {
    let mut shape = shape(ShapeKind::DataType);
    shape.data = Some(DataShape { created, aliases: vec![], ty });
    shape
}

fn interface(package: &str, label: &str) -> NameKind {
    NameKind::Interface(Some(package.to_string()), label.to_string())
}

fn named(name: &str, kind: NameKind, shape: Shape) -> Extern {
    Extern { name: name.to_string(), kind, implements: None, shape }
}

#[test]
fn functions_are_read() {
    let read = read(
        r#"(component
            (import "a:b/c@1.2.0" (instance
                (type $l (list u8))
                (export "f" (func (param "x" u8) (param "y" $l) (result string)))))
            (import "m" (core module)))"#,
    );
    let mut function = shape(ShapeKind::Function);
    function.signature = vec![
        part("x", ValueShape::Primitive),
        part(
            "y",
            ValueShape::Defined(ty(0, TypeTag::List, vec![part("", ValueShape::Primitive)])),
        ),
        part("", ValueShape::Primitive),
    ];
    let mut instance = shape(ShapeKind::Instance);
    instance.exports = vec![named("f", NameKind::Label, function)];
    let items = vec![
        (true, named("a:b/c@1.2.0", interface("a:b@1.2.0", "c"), instance)),
        (true, named("m", NameKind::Label, shape(ShapeKind::Other))),
    ];
    assert_eq!(read, items);
}

#[test]
fn types_are_read() {
    let read = read(
        r#"(component
            (import "i" (instance
                (export "r" (type $r (sub resource)))
                (type $v (variant (case "a" (own $r)) (case "b")))
                (export "v" (type (eq $v)))
                (export "[method]r.m" (func (param "self" (borrow $r)))))))"#,
    );
    let exports = &read[0].1.shape.exports;
    assert_eq!(exports[0].shape, data(0, ty(0, TypeTag::Resource, vec![])));
    let handle = |id: usize| TypeShape { handle: Some(0), ..ty(id, TypeTag::Handle, vec![]) };
    let variant = vec![
        part("a", ValueShape::Defined(handle(3))),
        part("b", ValueShape::Absent),
    ];
    assert_eq!(exports[1].shape, data(1, ty(2, TypeTag::Variant, variant)));
    assert_eq!(exports[2].kind, NameKind::Member("r".to_string()));
    assert_eq!(exports[2].shape.signature[0], part("self", ValueShape::Defined(handle(4))));
    assert_eq!(exports[2].shape.signature[1], part("", ValueShape::Absent));
}

#[test]
fn all_types_of_values_are_read() {
    let tag = |text: &str| {
        let text = format!(
            r#"(component (type $l (list u8)) (type $t {text}) (import "t" (type (eq $t))))"#
        );
        let ty = read(&text).remove(0).1.shape.data.unwrap().ty;
        let parts: Vec<(String, bool)> = ty
            .parts
            .into_iter()
            .map(|p| (p.name, matches!(p.value, ValueShape::Defined(_))))
            .collect();
        (ty.tag, parts)
    };
    let plain = |list: &[bool]| list.iter().map(|d| (String::new(), *d)).collect::<Vec<_>>();
    assert_eq!(tag("u8"), (TypeTag::Primitive, vec![]));
    assert_eq!(tag("(list $l)"), (TypeTag::List, plain(&[true])));
    assert_eq!(tag("(tuple u8 $l)"), (TypeTag::Tuple, plain(&[false, true])));
    assert_eq!(tag("(option u8)"), (TypeTag::Option, plain(&[false])));
    assert_eq!(tag("(result $l (error u8))"), (TypeTag::Result, plain(&[true, false])));
    assert_eq!(tag("(flags \"a\")"), (TypeTag::Labels, vec![]));
    assert_eq!(tag("(enum \"a\")"), (TypeTag::Labels, vec![]));
    assert_eq!(tag("(future $l)"), (TypeTag::Future, plain(&[true])));
    assert_eq!(tag("(stream u8)"), (TypeTag::Stream, plain(&[false])));
    assert_eq!(tag("(list u8 4)"), (TypeTag::FixedLengthList(4), plain(&[false])));
    assert_eq!(tag("(map u8 $l)"), (TypeTag::MapOf, plain(&[false, true])));
    assert_eq!(
        tag("(record (field \"a\" u8) (field \"b\" $l))"),
        (TypeTag::Record, vec![("a".to_string(), false), ("b".to_string(), true)])
    );
}

#[test]
fn types_that_stand_for_others_are_told() {
    let read = read(
        r#"(component
            (import "a" (type $a (sub resource)))
            (import "b" (type $b (eq $a)))
            (import "c" (type $c (eq $b))))"#,
    );
    let data: Vec<_> = read.into_iter().map(|i| i.1.shape.data.unwrap()).collect();
    assert_eq!((data[0].created, data[0].ty.id), (0, 0));
    assert!(data[0].aliases.is_empty());
    // `b` stands for `a`, and `c` for `b`, and so for `a`.
    assert_eq!(data[1].ty.id, 0);
    assert_eq!(data[2].ty.id, data[1].created);
    assert_eq!(data[2].aliases, vec![0]);
}

#[test]
fn names_are_told_apart() {
    let kind = |name: &str| {
        read(&format!(r#"(component (import "{name}" (core module)))"#)).remove(0).1.kind
    };
    assert_eq!(kind("a-b"), NameKind::Label);
    assert_eq!(kind("a:b/c"), interface("a:b", "c"));
    assert_eq!(kind("a:b/c@1.0.0-x"), interface("a:b@1.0.0-x", "c"));
    assert_eq!(kind("a:b:c/d"), NameKind::Invalid);
    assert_eq!(kind("url=<https://a>"), NameKind::Other);
}

#[test]
fn the_suffix_of_a_version_counts() {
    let read = read(
        r#"(component
            (import "a:b/c@1.2.3" (instance))
            (import "a:b/c@1" (version-suffix ".2.3") (instance)))"#,
    );
    assert_eq!(read[0].1.kind, interface("a:b@1.2.3", "c"));
    assert_eq!(read[1].1.kind, interface("a:b@1.2.3", "c"));
}

#[test]
fn what_an_instance_implements_is_read() {
    let read = read(r#"(component (import "i" (implements "a:b/c") (instance)))"#);
    assert_eq!(
        read[0].1.implements,
        Some(("a:b/c".to_string(), interface("a:b", "c")))
    );
}

#[test]
fn only_a_valid_binary_has_items() {
    assert_eq!(read_items(b""), None);
    assert_eq!(read_items(b"junk"), None);
    let unknown = binary(r#"(component (import "a" (core module)))"#);
    assert_eq!(read_items(&unknown[..unknown.len() - 1]), None);
    assert_eq!(read_items(&binary("(module)")), Some(vec![]));
    assert_eq!(read_items(&binary("(component)")), Some(vec![]));
}

#[test]
fn items_come_in_the_order_of_the_sections() {
    let text = r#"(component
        (import "a" (core module))
        (core module $m)
        (export "m" (core module $m))
        (component (import "x" (core module)) (import "b" (core module)))
        (import "b" (core module))
        (export "a" (core module $m)))"#;
    let list = |bytes: &[u8]| -> Vec<(bool, String)> {
        read_items(bytes).unwrap().into_iter().map(|(imported, e)| (imported, e.name)).collect()
    };
    let items = ["a", "m", "b", "a"].map(str::to_string);
    let items: Vec<_> = [true, false, true, false].into_iter().zip(items).collect();
    let mut bytes = binary(text);
    assert_eq!(list(&bytes), items);
    // The last section may be a binary that ends where it should go on.
    bytes.extend_from_slice(&[1, 0x7f, 0x00, 0x61, 0x73, 0x6d, 0x01, 0x00, 0x00, 0x00]);
    assert_eq!(list(&bytes), items);
}
