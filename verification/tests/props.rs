use wheel_of_time::props::Prop;
use wheel_of_time::props::PropValue;
use wheel_of_time::props::get_decimal_of;
use wheel_of_time::props::get_int_of;
use wheel_of_time::props::get_object_of;
use wheel_of_time::document::MapObject;
use wheel_of_time::document::Shape;
use wheel_of_time::document::TileDef;
use wheel_of_time::document::get_float_prop;
use wheel_of_time::document::get_int_prop;
use wheel_of_time::document::get_teleporter_dst;

fn prop(name: &str, value: PropValue) -> Prop {
    Prop { name: name.to_string(), value }
}

#[test]
fn int_prop_found_by_name() {
    let props = vec![prop("damage", PropValue::Decimal(7)), prop("epoch", PropValue::Int(-2))];
    assert_eq!(get_int_of(&props, "epoch"), Some(-2));
    assert_eq!(get_int_of(&props, "missing"), None);
}

#[test]
fn wrong_type_is_treated_as_absent() {
    let props = vec![prop("epoch", PropValue::Text("three".to_string()))];
    assert_eq!(get_int_of(&props, "epoch"), None);
    let props2 = vec![prop("damage", PropValue::Int(3))];
    assert_eq!(get_decimal_of(&props2, "damage"), None);
    let props3 = vec![prop("dst", PropValue::Int(3))];
    assert_eq!(get_object_of(&props3, "dst"), None);
}

#[test]
fn first_match_wins() {
    let props = vec![prop("epoch", PropValue::Int(1)), prop("epoch", PropValue::Int(9))];
    assert_eq!(get_int_of(&props, "epoch"), Some(1));
}

#[test]
fn tile_accessors_read_the_property_bag() {
    let tile = TileDef {
        id: 4,
        props: vec![
            prop("epoch", PropValue::Int(1)),
            prop("damage", PropValue::Decimal(0x40a0_0000)),
        ],
        collision: vec![],
        animation: None,
    };
    assert_eq!(get_int_prop(&tile, "epoch"), Some(1));
    assert_eq!(get_int_prop(&tile, "epoch_min"), None);
    assert_eq!(get_float_prop(&tile, "damage"), Some(0x40a0_0000));
}

#[test]
fn teleporter_destination_comes_from_dst() {
    let obj = MapObject {
        id: 11,
        name: "portal".to_string(),
        kind: "teleport".to_string(),
        x: 0,
        y: 0,
        shape: Shape::Rect { width: 16, height: 32 },
        props: vec![prop("dst", PropValue::Object(12))],
    };
    assert_eq!(get_teleporter_dst(&obj), Some(12));
    let bare = MapObject { props: vec![], ..obj };
    assert_eq!(get_teleporter_dst(&bare), None);
}
