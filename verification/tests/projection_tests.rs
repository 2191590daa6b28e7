use celeste_map::Attr;
use celeste_map::Element;
use celeste_map::Filler;
use celeste_map::GameMap;
use celeste_map::Level;
use celeste_map::MapError;
use celeste_map::Value;

fn varint(mut n: u32) -> Vec<u8> {
    let mut out = Vec::new();
    loop {
        if n < 0x80 {
            out.push(n as u8);
            return out;
        }
        out.push(((n & 0x7f) | 0x80) as u8);
        n >>= 7;
    }
}

fn lp_string(s: &str) -> Vec<u8> {
    let mut out = varint(s.len() as u32);
    out.extend_from_slice(s.as_bytes());
    out
}

fn header(table: &[&str]) -> Vec<u8> {
    let mut d = lp_string("CELESTE MAP");
    d.extend(lp_string("pkg"));
    d.extend((table.len() as u16).to_le_bytes());
    for s in table {
        d.extend(lp_string(s));
    }
    d
}

fn elem(name_idx: u16, attrs: &[(u16, Vec<u8>)], children: &[Vec<u8>]) -> Vec<u8> {
    let mut d = name_idx.to_le_bytes().to_vec();
    d.push(attrs.len() as u8);
    for (k, v) in attrs {
        d.extend(k.to_le_bytes());
        d.extend(v);
    }
    d.extend((children.len() as i16).to_le_bytes());
    for c in children {
        d.extend(c);
    }
    d
}

fn int32(v: i32) -> Vec<u8> {
    let mut d = vec![3];
    d.extend(v.to_le_bytes());
    d
}

/// An element built directly, for projection tests that need no decoding.
fn node(name: &str, attrs: Vec<(&str, Value)>, children: Vec<Element>) -> Element {
    Element {
        name: String::from(name),
        attributes: attrs
            .into_iter()
            .map(|(k, v)| Attr { key: String::from(k), value: v })
            .collect(),
        children,
    }
}

fn level_node(name_value: &str) -> Element {
    node(
        "level",
        vec![
            ("x", Value::Int(16)),
            ("y", Value::Int(-32)),
            ("width", Value::Int(320)),
            ("height", Value::Int(184)),
            ("name", Value::Str(String::from(name_value))),
            ("c", Value::Int(3)),
        ],
        vec![],
    )
}

#[test]
fn minimal_document_projects_to_empty_map() {
    // Header strings, a table ["levels", "Style"] (the root name reuses
    // entry 0), and a root with an empty "levels" child and a "Style"
    // child.
    let mut d = header(&["levels", "Style"]);
    d.extend(elem(0, &[], &[elem(0, &[], &[]), elem(1, &[], &[])]));
    let e = Element::from_bin(&d).unwrap();
    let map = GameMap::try_from(&e).unwrap();
    assert!(map.levels.is_empty());
    assert!(map.filler.is_empty());
}

#[test]
fn missing_style_fails_projection() {
    // The same minimal document with the "Style" child removed.
    let mut d = header(&["levels", "Style"]);
    d.extend(elem(0, &[], &[elem(0, &[], &[])]));
    let e = Element::from_bin(&d).unwrap();
    assert_eq!(GameMap::try_from(&e), Err(MapError::MissingRequiredNode));
}

#[test]
fn missing_levels_fails_projection() {
    let root = node("root", vec![], vec![node("Style", vec![], vec![])]);
    assert_eq!(GameMap::try_from(&root), Err(MapError::MissingRequiredNode));
}

#[test]
fn level_name_prefix_is_stripped() {
    let root = node(
        "root",
        vec![],
        vec![
            node("levels", vec![], vec![level_node("lvl_a-02")]),
            node("Style", vec![], vec![]),
        ],
    );
    let map = GameMap::try_from(&root).unwrap();
    assert_eq!(map.levels.len(), 1);
    assert_eq!(map.levels[0].name, "a-02");
}

#[test]
fn level_name_without_prefix_is_kept() {
    let root = node(
        "root",
        vec![],
        vec![
            node("levels", vec![], vec![level_node("b-01")]),
            node("Style", vec![], vec![]),
        ],
    );
    let map = GameMap::try_from(&root).unwrap();
    assert_eq!(map.levels[0].name, "b-01");
}

#[test]
fn level_fields_project_exactly() {
    let root = node(
        "root",
        vec![],
        vec![
            node("levels", vec![], vec![level_node("lvl_1")]),
            node("Style", vec![], vec![]),
        ],
    );
    let map = GameMap::try_from(&root).unwrap();
    assert_eq!(
        map.levels[0],
        Level {
            x: 16,
            y: -32,
            width: 320,
            height: 184,
            solids: String::new(),
            bg: String::new(),
            name: String::from("1"),
            c: 3,
        }
    );
}

#[test]
fn level_missing_attribute_fails() {
    let mut bad = level_node("lvl_1");
    bad.attributes.retain(|a| a.key != "x");
    let root = node(
        "root",
        vec![],
        vec![
            node("levels", vec![], vec![bad]),
            node("Style", vec![], vec![]),
        ],
    );
    assert_eq!(
        GameMap::try_from(&root),
        Err(MapError::MissingRequiredAttribute)
    );
}

#[test]
fn level_wrong_attribute_variant_fails() {
    let mut bad = level_node("lvl_1");
    for a in bad.attributes.iter_mut() {
        if a.key == "x" {
            a.value = Value::Str(String::from("16"));
        }
    }
    let root = node(
        "root",
        vec![],
        vec![
            node("levels", vec![], vec![bad]),
            node("Style", vec![], vec![]),
        ],
    );
    assert_eq!(GameMap::try_from(&root), Err(MapError::TypeMismatch));
}

#[test]
fn tile_grids_come_from_inner_text() {
    let mut lv = level_node("lvl_1");
    lv.children.push(node(
        "solids",
        vec![("innerText", Value::Str(String::from("11100\n00011")))],
        vec![],
    ));
    let root = node(
        "root",
        vec![],
        vec![
            node("levels", vec![], vec![lv]),
            node("Style", vec![], vec![]),
        ],
    );
    let map = GameMap::try_from(&root).unwrap();
    assert_eq!(map.levels[0].solids, "11100\n00011");
    assert_eq!(map.levels[0].bg, "");
}

#[test]
fn non_text_inner_text_fails() {
    let mut lv = level_node("lvl_1");
    lv.children
        .push(node("bg", vec![("innerText", Value::Int(5))], vec![]));
    let root = node(
        "root",
        vec![],
        vec![
            node("levels", vec![], vec![lv]),
            node("Style", vec![], vec![]),
        ],
    );
    assert_eq!(GameMap::try_from(&root), Err(MapError::TypeMismatch));
}

#[test]
fn filler_rectangles_project() {
    let rect = node(
        "rect",
        vec![
            ("x", Value::Int(8)),
            ("y", Value::Int(-8)),
            ("w", Value::Int(40)),
            ("h", Value::Int(24)),
        ],
        vec![],
    );
    let root = node(
        "root",
        vec![],
        vec![
            node("levels", vec![], vec![]),
            node("Filler", vec![], vec![rect]),
            node("Style", vec![], vec![]),
        ],
    );
    let map = GameMap::try_from(&root).unwrap();
    assert_eq!(map.filler, vec![Filler { x: 8, y: -8, w: 40, h: 24 }]);
}

#[test]
fn filler_missing_attribute_fails() {
    let rect = node("rect", vec![("x", Value::Int(8))], vec![]);
    let root = node(
        "root",
        vec![],
        vec![
            node("levels", vec![], vec![]),
            node("Filler", vec![], vec![rect]),
            node("Style", vec![], vec![]),
        ],
    );
    assert_eq!(
        GameMap::try_from(&root),
        Err(MapError::MissingRequiredAttribute)
    );
}

#[test]
fn negative_size_wraps_to_unsigned() {
    let mut lv = level_node("lvl_1");
    for a in lv.attributes.iter_mut() {
        if a.key == "width" {
            a.value = Value::Int(-1);
        }
    }
    let root = node(
        "root",
        vec![],
        vec![
            node("levels", vec![], vec![lv]),
            node("Style", vec![], vec![]),
        ],
    );
    let map = GameMap::try_from(&root).unwrap();
    assert_eq!(map.levels[0].width, u32::MAX);
}

#[test]
fn levels_keep_document_order() {
    let root = node(
        "root",
        vec![],
        vec![
            node(
                "levels",
                vec![],
                vec![level_node("lvl_first"), level_node("lvl_second")],
            ),
            node("Style", vec![], vec![]),
        ],
    );
    let map = GameMap::try_from(&root).unwrap();
    let names: Vec<&str> = map.levels.iter().map(|l| l.name.as_str()).collect();
    assert_eq!(names, ["first", "second"]);
}

#[test]
fn end_to_end_decode_and_project() {
    // A document with one room whose solids grid is run-length encoded.
    let table = [
        "root", "levels", "Style", "level", "x", "y", "width", "height", "name", "c", "lvl_a-02",
        "solids", "innerText",
    ];
    let level = elem(
        3,
        &[
            (4, int32(16)),
            (5, int32(32)),
            (6, int32(320)),
            (7, int32(184)),
            (8, vec![5, 10, 0]),
            (9, vec![1, 2]),
        ],
        &[elem(11, &[(12, vec![7, 4, 0, 3, b'1', 2, b'0'])], &[])],
    );
    let mut d = header(&table);
    d.extend(elem(
        0,
        &[],
        &[elem(1, &[], &[level]), elem(2, &[], &[])],
    ));
    let e = Element::from_bin(&d).unwrap();
    let map = GameMap::try_from(&e).unwrap();
    assert_eq!(map.levels.len(), 1);
    let lv = &map.levels[0];
    assert_eq!(lv.name, "a-02");
    assert_eq!((lv.x, lv.y, lv.width, lv.height, lv.c), (16, 32, 320, 184, 2));
    assert_eq!(lv.solids, "11100");
    assert_eq!(lv.bg, "");
    assert!(map.filler.is_empty());
    // Projecting the same tree twice yields the same map.
    assert_eq!(GameMap::try_from(&e).unwrap(), map);
}

#[test]
fn duplicate_named_children_later_wins() {
    let root = node(
        "root",
        vec![],
        vec![
            node("levels", vec![], vec![level_node("lvl_old")]),
            node("levels", vec![], vec![level_node("lvl_new")]),
            node("Style", vec![], vec![]),
        ],
    );
    let map = GameMap::try_from(&root).unwrap();
    assert_eq!(map.levels.len(), 1);
    assert_eq!(map.levels[0].name, "new");
}
