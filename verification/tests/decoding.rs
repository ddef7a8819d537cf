use wasm_pkg_client::error::Error;
use wasm_pkg_client::oci::decoding::Trouble;
use wasm_pkg_client::oci::rehearsal::rehearse;
use wasm_pkg_client::oci::shape::{
    DataShape, Extern, NameKind, PartShape, Shape, ShapeKind, TypeShape, TypeTag, ValueShape,
};
use wasm_pkg_client::oci::wit::{can_decode, read_wit};
use wasm_pkg_client::oci::{publisher, publisher_wasm};

fn binary(text: &str) -> Vec<u8> {
    wat::parse_str(text).unwrap()
}

/// What the decoder does not get over is refused.
fn stuck(text: &str) {
    let bytes = binary(text);
    assert!(!can_decode(&bytes));
    let reason = "no WIT describes the binary";
    let refused = || Error::InvalidComponent(format!("failed to decode WIT: {reason}"), vec![]);
    let native = Error::InvalidComponent(
        "failed to decode WIT component".to_string(),
        vec![reason.to_string()],
    );
    assert_eq!(read_wit(&bytes), Err(refused()));
    assert_eq!(publisher_wasm::build_push_artifacts(bytes.clone()).err(), Some(refused()));
    assert_eq!(publisher::build_push_artifacts(bytes).err(), Some(native));
}

/// What the decoder refuses is refused by it.
fn refused(text: &str) {
    let bytes = binary(text);
    assert!(can_decode(&bytes));
    let chain: Vec<String> = match wit_component::decode(&bytes) {
        Ok(_) => panic!("the binary was decoded"),
        Err(e) => e.chain().map(|cause| cause.to_string()).collect(),
    };
    assert_eq!(
        read_wit(&bytes),
        Err(Error::InvalidComponent(format!("failed to decode WIT: {}", chain[0]), vec![]))
    );
    assert_eq!(
        publisher::build_push_artifacts(bytes).err(),
        Some(Error::InvalidComponent("failed to decode WIT component".to_string(), chain))
    );
}

fn decoded(text: &str) {
    assert!(read_wit(&binary(text)).is_ok());
}

// ---------------------------------------------------------------------------
// WIT
// ---------------------------------------------------------------------------

/// Encodes a package, and a component for each of its worlds. All of them are decoded.
fn described(wit: &str) {
    let mut resolve = wit_parser::Resolve::default();
    let package = resolve.push_str("a.wit", wit).unwrap();
    let bytes = wit_component::encode(&resolve, package).unwrap();
    assert!(read_wit(&bytes).is_ok());
    for world in resolve.packages[package].worlds.values().copied().collect::<Vec<_>>() {
        let abi = wit_parser::ManglingAndAbi::Legacy(wit_parser::LiftLowerAbi::Sync);
        let mut module = wit_component::dummy_module(&resolve, world, abi);
        let encoding = wit_component::StringEncoding::UTF8;
        wit_component::embed_component_metadata(&mut module, &resolve, world, encoding).unwrap();
        let encoder = wit_component::ComponentEncoder::default().module(&module);
        let bytes = encoder.unwrap().encode().unwrap();
        assert!(read_wit(&bytes).is_ok());
    }
}

#[test]
fn a_package_with_worlds_is_decoded() {
    described(
        "package a:b@1.2.3;
        interface types {
          record r { a: list<u8>, b: option<string> }
          variant v { x(r), y }
          enum e { p, q }
          flags f { s, t }
          type al = r;
          resource res {
            constructor(x: u32);
            m: func(y: borrow<res>) -> result<list<al>, e>;
            s: static func(a: tuple<u8, r>) -> res;
          }
        }
        interface api {
          use types.{r, res, v as w};
          go: func(x: r, y: res) -> w;
          resource two { m: func(a: own<res>) -> list<list<string>>; }
        }
        world mid { import api; export api; }
        world only {
          import types;
          import log: interface { record q { a: u8 } put: func(x: q, s: string) -> list<q>; }
          import plain: func(a: list<string>) -> result;
          export run: func();
        }
        world uses {
          use types.{r, res};
          import f: func(x: r) -> res;
          export g: func(y: list<r>) -> option<r>;
          export inl: interface { use types.{r}; h: func(x: r) -> r; }
        }
        world big { include mid; include only; }",
    );
}

#[test]
fn packages_that_use_others_are_decoded() {
    described(
        "package a:b;
        interface i { use c:d/j.{t, r}; f: func(x: t) -> r; record k { t: t } }
        world w { import c:d/j; export i; export c:d/j; import e:f/l@2.0.0; }
        world v { import i; export i; }
        package c:d {
          interface j { type t = list<u8>; resource r { m: func() -> t; } g: func(x: t); }
        }
        package e:f@2.0.0 {
          interface l { use c:d/j.{t}; type u = t; h: func(x: u); }
        }",
    );
}

#[test]
fn types_without_names_are_decoded() {
    described(
        "package a:b;
        interface j {
          type t = u8;
          type l = list<t>;
          record r { a: t, b: l, c: tuple<t, l> }
          f: func(a: r, b: list<r>) -> result<r, l>;
          g: func() -> future<u8>;
          h: func() -> stream<l>;
        }
        world w { import j; export j; }",
    );
}

// ---------------------------------------------------------------------------
// Types
// ---------------------------------------------------------------------------

/// A component that imports and exports the interface `a:b/c`, each time with a type `t`.
fn twice(imported: &str, exported: &str) -> String {
    format!(
        r#"(component
            (import "a:b/c" (instance
                (type $l (list u8)) (type $t {imported}) (export "t" (type (eq $t)))))
            (component $c
                (type $l (list u8)) (type $t {exported}) (export "t" (type $t)))
            (instance $i (instantiate $c))
            (export "a:b/c" (instance $i)))"#
    )
}

#[test]
fn an_interface_has_a_type_once() {
    // A primitive type where a list was.
    stuck(&twice(r#"(record (field "f" $l))"#, r#"(record (field "f" u8))"#));
    stuck(&twice("(tuple u8 $l)", "(tuple u8 u8)"));
    stuck(&twice("(option $l)", "(option u8)"));
    stuck(&twice("(result (error $l))", "(result (error u8))"));
    stuck(&twice(r#"(variant (case "a" $l))"#, r#"(variant (case "a" u8))"#));
    // The other way round that is refused.
    refused(&twice(r#"(record (field "f" u8))"#, r#"(record (field "f" $l))"#));
    refused(&twice("(option $l)", "(list u8)"));
    refused(&twice("(tuple u8 $l)", "(tuple u8)"));
    refused(&twice(r#"(record (field "f" $l))"#, r#"(record (field "g" u8))"#));
    refused(&twice(r#"(variant (case "a" $l))"#, r#"(variant (case "a"))"#));
    // Which primitive type it is makes no difference.
    decoded(&twice(r#"(record (field "f" u8))"#, r#"(record (field "f" u16))"#));
    decoded(&twice(r#"(record (field "f" $l))"#, r#"(record (field "f" $l))"#));
    decoded(&twice(r#"(flags "a")"#, r#"(flags "b")"#));
    // What comes first, comes first.
    refused(&twice("(tuple u8 $l)", "(tuple $l u8)"));
    stuck(&twice("(tuple $l u8)", "(tuple u8 $l)"));
}

#[test]
fn an_instance_is_not_exported_again() {
    let again = |name: &str| {
        format!(
            r#"(component
                (import "a:b/c@1.2.3" (instance $x (export "r" (type (sub resource)))))
                (export {name} (instance $x)))"#
        )
    };
    stuck(&again(r#""a:b/c@1.2.3""#));
    // The same interface, written in another way.
    stuck(&again(r#""a:b/c@1" (version-suffix ".2.3")"#));
    // Under another name the type is refused, and without types there is nothing to refuse.
    refused(&again(r#""a:b/d""#));
    decoded(
        r#"(component
            (import "a:b/c" (instance $x (export "f" (func))))
            (export "a:b/c" (instance $x)))"#,
    );
}

#[test]
fn types_of_functions_are_none() {
    stuck(r#"(component (type (func)) (import "t" (type (eq 0))))"#);
    stuck(r#"(component (import "i" (instance (type (func)) (export "t" (type (eq 0))))))"#);
    refused(r#"(component (type (component)) (export "c" (type 0)) (import "f" (func)))"#);
}

// ---------------------------------------------------------------------------
// Functions
// ---------------------------------------------------------------------------

#[test]
fn a_function_has_no_name_of_an_interface() {
    stuck(r#"(component (import "a:b/c" (func)))"#);
    decoded(r#"(component (import "c" (func)))"#);
    // What comes first, comes first.
    refused(r#"(component (type (component)) (export "c" (type 0)) (import "a:b/c" (func)))"#);
    stuck(r#"(component (import "a:b/c" (func)) (type (component)) (export "c" (type 0)))"#);
}

#[test]
fn a_member_belongs_to_a_resource_of_its_interface() {
    decoded(
        r#"(component (import "i" (instance
            (export "r" (type $r (sub resource)))
            (export "[method]r.m" (func (param "self" (borrow $r))))
            (export "[static]r.s" (func)))))"#,
    );
    // A resource that stands for another one is none of its own.
    stuck(
        r#"(component
            (import "r" (type $r (sub resource)))
            (import "i" (instance
                (export "s" (type $s (eq $r)))
                (export "[method]s.m" (func (param "self" (borrow $s)))))))"#,
    );
    stuck(
        r#"(component
            (import "a:b/x" (instance $x (export "r" (type (sub resource)))))
            (alias export $x "r" (type $r))
            (import "a:b/y" (instance
                (export "r" (type (eq $r)))
                (export "[static]r.m" (func)))))"#,
    );
}

// ---------------------------------------------------------------------------
// Packages
// ---------------------------------------------------------------------------

#[test]
fn packages_do_not_use_one_another_in_a_circle() {
    let last = |name: &str| {
        format!(
            r#"(component
                (import "a:a/x" (instance $x (export "r" (type (sub resource)))))
                (alias export $x "r" (type $r))
                (import "b:b/y" (instance $y
                    (export "r" (type (eq $r)))
                    (export "q" (type (sub resource)))))
                (alias export $y "q" (type $q))
                (import "{name}" (instance (export "q" (type (eq $q))))))"#
        )
    };
    stuck(&last("a:a/z"));
    decoded(&last("c:c/z"));
    decoded(&last("b:b/z"));
}

#[test]
fn an_interface_uses_interfaces_with_full_names() {
    let from = |import: &str, name: &str| {
        format!(
            r#"(component
                {import}
                (import "{name}" (instance (export "r" (type (eq $r))))))"#
        )
    };
    let instance = |name: &str| {
        format!(
            r#"(import "{name}" (instance $x (export "r" (type (sub resource)))))
               (alias export $x "r" (type $r))"#
        )
    };
    let world = r#"(import "r" (type $r (sub resource)))"#;
    stuck(&from(&instance("x"), "b:b/y"));
    stuck(&from(world, "b:b/y"));
    decoded(&from(&instance("a:a/x"), "b:b/y"));
    decoded(&from(&instance("x"), "y"));
    decoded(&from(world, "y"));
}

#[test]
fn a_part_of_a_package_is_an_interface_or_a_world() {
    let part = |text: &str, name: &str| {
        format!(r#"(component (type (component {text})) (export "{name}" (type 0)))"#)
    };
    decoded(&part(r#"(export "a:b/i" (instance))"#, "i"));
    decoded(&part(r#"(export "a:b/w" (component))"#, "w"));
    stuck(&part(r#"(export "f" (func))"#, "i"));
    refused(&part(r#"(export "f" (func))"#, "a:b/wit"));
    refused(&part(r#"(export "f" (func))"#, "a:b/c"));
    refused(&part("", "i"));
    // Names.
    stuck(&part(r#"(import "a:b:c/d" (instance)) (export "a:b/i" (instance))"#, "i"));
    stuck(&part(r#"(export "i" (instance))"#, "a:b/wit"));
    refused(&part(r#"(export "i" (instance))"#, "i"));
    // An interface is not used before it is there.
    stuck(&part(r#"(import "a:b/i" (instance)) (export "a:b/i" (instance))"#, "i"));
    stuck(&part(r#"(import "a:b/i" (instance)) (export "c:d/i" (instance))"#, "a:b/wit"));
    decoded(&part(r#"(import "c:d/i" (instance)) (export "c:d/i" (instance))"#, "a:b/wit"));
    decoded(&part(
        r#"(export "a:b/i" (instance))
           (export "a:b/w" (component (import "a:b/i" (instance))))"#,
        "a:b/wit",
    ));
}

#[test]
fn parts_of_a_package_go_together() {
    let parts = |a: &str, b: &str| {
        format!(
            r#"(component
                (type $a (component {a})) (export "x" (type $a))
                (type $b (component {b})) (export "y" (type $b)))"#
        )
    };
    let interface = |name: &str| format!(r#"(export "{name}" (instance))"#);
    let world = |name: &str| format!(r#"(export "{name}" (component))"#);
    let uses = r#"(export "a:b/w" (component (import "a:b/i" (instance))))"#;
    decoded(&parts(&interface("a:b/i"), &interface("a:b/j")));
    decoded(&parts(&interface("a:b/i"), &interface("a:b/i")));
    decoded(&parts(&interface("a:b/i"), &world("a:b/i")));
    stuck(&parts(&interface("a:b/i"), &interface("a:c/i")));
    refused(&parts(&interface("a:b/i"), &interface("a:c/j")));
    stuck(&parts(&world("a:b/w"), &world("a:b/w")));
    decoded(&parts(&interface("a:b/i"), uses));
    stuck(&parts(uses, &interface("a:b/i")));
}

// ---------------------------------------------------------------------------
// Shapes
// ---------------------------------------------------------------------------

fn shape(kind: ShapeKind) -> Shape {
    Shape { kind, data: None, signature: vec![], imports: vec![], exports: vec![] }
}

fn extern_named(name: &str, shape: Shape) -> Extern {
    let kind = match name.split_once('/') {
        Some((package, label)) => {
            NameKind::Interface(Some(package.to_string()), label.to_string())
        }
        None => NameKind::Label,
    };
    Extern { name: name.to_string(), kind, implements: None, shape }
}

fn record(created: usize, id: usize, value: ValueShape) -> Shape {
    let parts = vec![PartShape { name: "f".to_string(), value }];
    let ty = TypeShape { id, tag: TypeTag::Record, handle: None, parts };
    let mut data = shape(ShapeKind::DataType);
    data.data = Some(DataShape { created, aliases: vec![], ty });
    data
}

fn list(id: usize) -> ValueShape {
    let parts = vec![PartShape { name: String::new(), value: ValueShape::Primitive }];
    ValueShape::Defined(TypeShape { id, tag: TypeTag::List, handle: None, parts })
}

fn instance(member: Shape) -> Shape {
    let mut instance = shape(ShapeKind::Instance);
    instance.exports = vec![extern_named("t", member)];
    instance
}

#[test]
fn items_are_rehearsed() {
    let item = |imported: bool, member: Shape| (imported, extern_named("a:b/c", instance(member)));
    let both = |a: Shape, b: Shape| rehearse(&vec![item(true, a), item(false, b)]);
    let one = || record(0, 1, list(2));
    let plain = || record(3, 4, ValueShape::Primitive);
    assert_eq!(both(one(), record(3, 4, list(5))), Ok(()));
    assert_eq!(both(one(), plain()), Err(Trouble::Stuck));
    // The exports may come first.
    assert_eq!(
        rehearse(&vec![item(false, plain()), item(true, one())]),
        Err(Trouble::Refused)
    );
    // The types may be the same.
    assert_eq!(both(one(), one()), Err(Trouble::Stuck));
    assert_eq!(rehearse(&vec![]), Ok(()));
}

#[test]
fn a_binary_that_is_cut_off_is_looked_into() {
    let module = [0x00, 0x61, 0x73, 0x6d, 0x01, 0x00, 0x00, 0x00];
    let cut_off = |text: &str, length: &[u8]| {
        let mut bytes = binary(text);
        bytes.push(1);
        bytes.extend_from_slice(length);
        bytes.extend_from_slice(&module);
        bytes
    };
    for length in [&[0x7f][..], &[0x80, 0x80, 0x80, 0x80, 0x04]] {
        let bytes = cut_off(r#"(component (import "a:b/c" (func)))"#, length);
        assert!(!can_decode(&bytes));
        let bytes = cut_off(r#"(component (import "a" (func)))"#, length);
        assert!(read_wit(&bytes).is_ok());
    }
}
