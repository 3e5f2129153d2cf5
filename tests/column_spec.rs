use automerge::column_spec::{ColumnId, ColumnSpec, ColumnType};

struct Scenario {
    id: ColumnId,
    col_type: ColumnType,
    int_val: u32,
}

#[test]
fn column_spec_encoding() {
    let scenarios = vec![
        Scenario { id: ColumnId(7), col_type: ColumnType::Group, int_val: 112 },
        Scenario { id: ColumnId(0), col_type: ColumnType::Actor, int_val: 1 },
        Scenario { id: ColumnId(0), col_type: ColumnType::Integer, int_val: 2 },
        Scenario { id: ColumnId(1), col_type: ColumnType::DeltaInteger, int_val: 19 },
        Scenario { id: ColumnId(3), col_type: ColumnType::Boolean, int_val: 52 },
        Scenario { id: ColumnId(1), col_type: ColumnType::String, int_val: 21 },
        Scenario { id: ColumnId(5), col_type: ColumnType::ValueMetadata, int_val: 86 },
        Scenario { id: ColumnId(5), col_type: ColumnType::Value, int_val: 87 },
    ];

    for (index, scenario) in scenarios.into_iter().enumerate() {
        let spec = ColumnSpec::new(scenario.id, scenario.col_type, false);

        let encoded_val = u32::from(spec);
        if encoded_val != scenario.int_val {
            panic!(
                "Scenario {} failed encoding: expected {} but got {}",
                index + 1,
                scenario.int_val,
                encoded_val
            );
        }

        if spec.col_type() != scenario.col_type {
            panic!(
                "Scenario {} failed col type: expected {:?} but got {:?}",
                index + 1,
                scenario.col_type,
                spec.col_type()
            );
        }

        if spec.deflate() {
            panic!(
                "Scenario {} failed: spec returned true for deflate, should have been false",
                index + 1
            );
        }

        if spec.id() != scenario.id {
            panic!(
                "Scenario {} failed id: expected {:?} but got {:?}",
                index + 1,
                scenario.id,
                spec.id()
            );
        }

        let deflated = ColumnSpec::new(scenario.id, scenario.col_type, true);

        if deflated.id() != spec.id() {
            panic!("Scenario {} failed deflate id test", index + 1);
        }

        if deflated.col_type() != spec.col_type() {
            panic!("Scenario {} failed col type test", index + 1);
        }

        if !deflated.deflate() {
            panic!(
                "Scenario {} failed: when deflate bit set deflate returned false",
                index + 1
            );
        }

        let expected = scenario.int_val | 0b00001000;
        if expected != u32::from(deflated) {
            panic!(
                "Scenario {} failed deflate bit test, expected {} got {}",
                index + 1,
                expected,
                u32::from(deflated)
            );
        }
    }
}

#[test]
fn construct_then_decompose_gives_inputs() {
    let types = [
        ColumnType::Group,
        ColumnType::Actor,
        ColumnType::Integer,
        ColumnType::DeltaInteger,
        ColumnType::Boolean,
        ColumnType::String,
        ColumnType::ValueMetadata,
        ColumnType::Value,
    ];
    for id in [0u32, 1, 2, 1000, 0x0fff_ffff] {
        for t in types {
            for deflate in [false, true] {
                let spec = ColumnSpec::new(ColumnId(id), t, deflate);
                assert_eq!(spec.id(), ColumnId(id));
                assert_eq!(spec.col_type(), t);
                assert_eq!(spec.deflate(), deflate);
            }
        }
    }
    assert_eq!(u32::from(ColumnSpec::new(ColumnId(0x0fff_ffff), ColumnType::Value, true)), 0xffff_ffff);
}

#[test]
fn normalize_ignores_only_deflate() {
    let plain = ColumnSpec::new(ColumnId(4), ColumnType::String, false);
    let deflated = ColumnSpec::new(ColumnId(4), ColumnType::String, true);
    assert_eq!(plain.normalize(), deflated.normalize());
    assert_eq!(u32::from(deflated.normalize()), 69);
    let other_type = ColumnSpec::new(ColumnId(4), ColumnType::Boolean, false);
    let other_id = ColumnSpec::new(ColumnId(5), ColumnType::String, false);
    assert_ne!(plain.normalize(), other_type.normalize());
    assert_ne!(plain.normalize(), other_id.normalize());
}

#[test]
fn column_type_from_low_bits() {
    assert_eq!(ColumnType::from(0x0du8), ColumnType::String);
    assert_eq!(u8::from(ColumnType::ValueMetadata), 6);
    assert_eq!(ColumnSpec::from(87u32).col_type(), ColumnType::Value);
}
