use wasm_pkg_client::oci::nesting::{is_well_nested, mend};
use wasm_pkg_client::oci::publisher::metadata;

const MODULE: [u8; 8] = [0x00, 0x61, 0x73, 0x6d, 0x01, 0x00, 0x00, 0x00];
const COMPONENT: [u8; 8] = [0x00, 0x61, 0x73, 0x6d, 0x0d, 0x00, 0x01, 0x00];

/// A component with one section, whose length takes the given number of bytes.
fn nest(id: u8, content: &[u8], width: usize) -> Vec<u8> {
    let mut bytes = COMPONENT.to_vec();
    bytes.push(id);
    let mut rest = content.len();
    for i in 1..=width {
        bytes.push((rest % 0x80) as u8 + if i < width { 0x80 } else { 0 });
        rest /= 0x80;
    }
    bytes.extend_from_slice(content);
    bytes
}

#[test]
fn binaries_are_nested() {
    assert!(is_well_nested(b""));
    assert!(is_well_nested(&MODULE));
    assert!(is_well_nested(&COMPONENT));
    assert!(is_well_nested(&nest(1, &MODULE, 1)));
    assert!(is_well_nested(&nest(4, &COMPONENT, 1)));
    assert!(is_well_nested(&nest(4, &nest(4, &nest(1, &MODULE, 1), 1), 1)));
    // A component where a core module should be is one thing, a binary inside it another.
    assert!(is_well_nested(&nest(1, &COMPONENT, 1)));
    assert!(is_well_nested(&nest(1, &nest(0, b"\x01x", 1), 1)));
    assert!(!is_well_nested(&nest(1, &nest(4, &COMPONENT, 1), 1)));
    assert!(!is_well_nested(&nest(1, &nest(1, &MODULE, 1), 1)));
    assert!(!is_well_nested(&nest(4, &nest(1, &nest(4, &COMPONENT, 1), 1), 1)));
}

#[test]
fn lengths_of_sections_are_read() {
    let bad = nest(4, &COMPONENT, 1);
    for width in 1..=5 {
        assert!(!is_well_nested(&nest(1, &bad, width)));
    }
    // What follows on a length that is too long or too large is not read at all.
    assert!(is_well_nested(&nest(1, &bad, 6)));
    let mut large = nest(1, &bad, 5);
    large[13] = 0x10;
    assert!(is_well_nested(&large));
    // A section may be cut off.
    let mut cut_off = nest(1, &bad, 5);
    cut_off[13] = 0x0f;
    assert!(!is_well_nested(&cut_off));
    assert!(is_well_nested(&cut_off[..12]));
    // A long section is passed over as a whole.
    let mut long = nest(0, &[0u8; 300], 2);
    long.extend_from_slice(&nest(1, &bad, 1)[8..]);
    assert!(!is_well_nested(&long));
}

#[test]
fn metadata_is_read_of_what_is_well_nested() {
    assert!(metadata(&MODULE).is_ok());
    assert!(metadata(&nest(4, &nest(1, &MODULE, 1), 1)).is_ok());
    assert!(metadata(&nest(1, &COMPONENT, 1)).is_ok());
    assert!(metadata(b"junk").is_err());
    let bytes = [
        0x00, 0x61, 0x73, 0x6d, 0x0d, 0x00, 0x01, 0x00, 0x01, 0x12, 0x00, 0x61, 0x73, 0x6d, 0x0d,
        0x00, 0x01, 0x00, 0x04, 0x08, 0x00, 0x61, 0x73, 0x6d, 0x0d, 0x00, 0x01, 0x00,
    ];
    assert_eq!(metadata(&bytes), Err("a module section holds a component".to_string()));
    // A binary that is faulty even so is told what is wrong with it.
    let reason = |bytes: &[u8]| match wasm_metadata::Payload::from_binary(bytes) {
        Ok(_) => panic!("the binary was parsed"),
        Err(e) => e.to_string(),
    };
    let mut cut_off = bytes.to_vec();
    cut_off[19] = 0x09;
    assert!(!is_well_nested(&cut_off));
    assert_eq!(metadata(&cut_off), Err(reason(&cut_off)));
    let mut faulty = bytes.to_vec();
    faulty[24] = 0x0e;
    assert!(is_well_nested(&faulty) || metadata(&faulty) == Err(reason(&faulty)));
}

#[test]
fn a_component_is_put_into_its_place() {
    let inner = nest(4, &COMPONENT, 1);
    assert_eq!(mend(&nest(1, &inner, 1)), nest(4, &inner, 1));
    assert_eq!(mend(&nest(1, &nest(1, &inner, 1), 1)), nest(4, &nest(4, &inner, 1), 1));
    assert_eq!(mend(&nest(1, &MODULE, 1)), nest(1, &MODULE, 1));
    assert_eq!(mend(b"junk"), b"junk".to_vec());
}
