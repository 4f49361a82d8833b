use dns_nat::{class_to_str, record_type_to_str};

#[test]
fn record_types_have_their_short_names() {
    assert_eq!(record_type_to_str(1), "A");
    assert_eq!(record_type_to_str(2), "NS");
    assert_eq!(record_type_to_str(5), "CNAME");
    assert_eq!(record_type_to_str(6), "SOA");
    assert_eq!(record_type_to_str(12), "PTR");
    assert_eq!(record_type_to_str(15), "MX");
    assert_eq!(record_type_to_str(16), "TXT");
    assert_eq!(record_type_to_str(28), "AAAA");
    assert_eq!(record_type_to_str(33), "SRV");
    assert_eq!(record_type_to_str(255), "ANY");
}

#[test]
fn other_record_types_are_unknown() {
    assert_eq!(record_type_to_str(0), "UNKNOWN");
    assert_eq!(record_type_to_str(3), "UNKNOWN");
    assert_eq!(record_type_to_str(29), "UNKNOWN");
    assert_eq!(record_type_to_str(256), "UNKNOWN");
    assert_eq!(record_type_to_str(65535), "UNKNOWN");
}

#[test]
fn classes_have_their_short_names() {
    assert_eq!(class_to_str(1), "IN");
    assert_eq!(class_to_str(2), "CS");
    assert_eq!(class_to_str(3), "CH");
    assert_eq!(class_to_str(4), "HS");
}

#[test]
fn other_classes_are_unknown() {
    assert_eq!(class_to_str(0), "UNKNOWN");
    assert_eq!(class_to_str(5), "UNKNOWN");
    assert_eq!(class_to_str(255), "UNKNOWN");
    assert_eq!(class_to_str(65535), "UNKNOWN");
}
