use std::cmp::Ordering;

use local_source::attribute_map::AttributeMap;
use local_source::generic_attributes::{GenericAttributeValue, ReparseBlob, WindowsFiletime};

#[test]
fn ord_is_total_and_variant_aware() {
    let ct = GenericAttributeValue::CreationTime(WindowsFiletime {
        low_date_time: 0,
        high_date_time: 0,
    });
    let n = GenericAttributeValue::U32(1);
    let s = GenericAttributeValue::String("z".into());
    // Variant ranks: CreationTime < U32 < String.
    assert!(ct < n);
    assert!(n < s);
    // Reflexive.
    assert_eq!(ct.cmp(&ct), Ordering::Equal);
    // Same variant: compare content.
    let n2 = GenericAttributeValue::U32(2);
    assert!(n < n2);
}

#[test]
fn windows_filetime_orders_chronologically() {
    let earlier = WindowsFiletime {
        low_date_time: u32::MAX,
        high_date_time: 0,
    };
    let later = WindowsFiletime {
        low_date_time: 0,
        high_date_time: 1,
    };
    assert!(earlier < later);
}

#[test]
fn derived_order_agrees_with_comparison() {
    let values = vec![
        GenericAttributeValue::CreationTime(WindowsFiletime {
            high_date_time: 3,
            low_date_time: 9,
        }),
        GenericAttributeValue::CreationTime(WindowsFiletime {
            high_date_time: 4,
            low_date_time: 1,
        }),
        GenericAttributeValue::U32(7),
        GenericAttributeValue::U32(70),
        GenericAttributeValue::String("ab".to_string()),
        GenericAttributeValue::String("abc".to_string()),
        GenericAttributeValue::String("b".to_string()),
        GenericAttributeValue::SparseExtents(vec![[0, 4]]),
        GenericAttributeValue::SparseExtents(vec![[0, 4], [8, 1]]),
        GenericAttributeValue::SparseExtents(vec![[0, 5]]),
        GenericAttributeValue::ReparsePoint(ReparseBlob {
            tag: 1,
            data: "z".to_string(),
        }),
        GenericAttributeValue::ReparsePoint(ReparseBlob {
            tag: 2,
            data: "a".to_string(),
        }),
    ];
    for (i, a) in values.iter().enumerate() {
        for (j, b) in values.iter().enumerate() {
            assert_eq!(a.cmp(b), i.cmp(&j));
            assert_eq!(Ord::cmp(a, b), i.cmp(&j));
            assert_eq!(a.partial_cmp(b), Some(i.cmp(&j)));
        }
    }
}

#[test]
fn attribute_names_ascend_and_later_values_replace() {
    let mut m = AttributeMap::new();
    m.insert("windows.reparse_point".to_string(), GenericAttributeValue::U32(1));
    m.insert("windows.creation_time".to_string(), GenericAttributeValue::U32(2));
    m.insert("windows.file_attributes".to_string(), GenericAttributeValue::U32(3));
    m.insert("windows.creation_time".to_string(), GenericAttributeValue::U32(4));
    assert_eq!(m.len(), 3);
    assert_eq!(m.name_at(0), "windows.creation_time");
    assert_eq!(m.name_at(1), "windows.file_attributes");
    assert_eq!(m.name_at(2), "windows.reparse_point");
    assert_eq!(m.value_at(0), &GenericAttributeValue::U32(4));
    assert_eq!(m.get("windows.file_attributes"), Some(&GenericAttributeValue::U32(3)));
    assert_eq!(m.get("windows.sparse_extents"), None);
    assert!(m.contains_key("windows.reparse_point"));
    assert!(!m.contains_key("windows"));
}
