use figet_spinner::schema::{
    check_array, ArrayReport, ArrayType, CheckArrayError, Field, FieldReport, FieldType,
};

#[test]
fn field_sizes_match_the_packed_layout() {
    let cases = [
        (FieldType::Empty, 0usize),
        (FieldType::Bool, 1),
        (FieldType::F32, 4),
        (FieldType::U8, 1),
        (FieldType::U16, 2),
        (FieldType::U64, 8),
        (FieldType::Object, 8),
    ];
    for (ftype, size) in cases {
        assert_eq!(Field::new("f\0", None, ftype).size(), size);
    }
}

#[test]
fn field_name_strips_the_trailing_nul() {
    let f = Field::new("temperature\0", None, FieldType::F32);
    assert_eq!(f.name(), "temperature");
}

#[test]
fn active_field_counts() {
    assert_eq!(ArrayType::Dvs.fields().len(), 4);
    assert_eq!(ArrayType::AedatImu.fields().len(), 11);
    assert_eq!(ArrayType::AedatTrigger.fields().len(), 2);
    assert_eq!(ArrayType::Dat.fields().len(), 4);
    assert_eq!(ArrayType::EsGeneric.fields().len(), 2);
    assert_eq!(ArrayType::EsAtis.fields().len(), 5);
    assert_eq!(ArrayType::EsColor.fields().len(), 6);
    assert_eq!(ArrayType::EvtTrigger.fields().len(), 3);
}

#[test]
fn dvs_layout_fields() {
    let fields = ArrayType::Dvs.fields();
    let mut it = fields.iter();
    let names: Vec<String> = std::iter::from_fn(|| it.next().map(|f| f.name())).collect();
    assert_eq!(names, vec!["t", "x", "y", "on"]);
    let mut it = fields.iter();
    let t = it.next().unwrap();
    assert_eq!(t.field_type, FieldType::U64);
    assert_eq!(t.title, None);
    it.next().unwrap();
    it.next().unwrap();
    let on = it.next().unwrap();
    assert_eq!(on.field_type, FieldType::Bool);
    assert_eq!(on.title, Some("p"));
    assert!(it.next().is_none());
}

/// A report that matches the Dvs layout exactly: t at 0, x at 8, y at 10,
/// on at 12.
fn good_dvs_report() -> ArrayReport {
    let offsets = [0i64, 8, 10, 12];
    ArrayReport {
        is_numpy_array: true,
        dimensions: vec![42],
        is_structured: true,
        fields: offsets
            .iter()
            .map(|o| FieldReport {
                found: true,
                type_matches: true,
                expected_type: String::from("<q8"),
                actual_type: String::from("<q8"),
                actual_offset: *o,
            })
            .collect(),
        actual_names: vec![
            String::from("t"),
            String::from("x"),
            String::from("y"),
            String::from("on"),
        ],
    }
}

#[test]
fn matching_report_is_accepted() {
    assert!(check_array(ArrayType::Dvs, good_dvs_report()).is_ok());
}

#[test]
fn non_array_is_rejected_first() {
    let mut report = good_dvs_report();
    report.is_numpy_array = false;
    report.is_structured = false;
    assert!(matches!(
        check_array(ArrayType::Dvs, report),
        Err(CheckArrayError::PyArrayCheck)
    ));
}

#[test]
fn wrong_dimensionality_is_rejected() {
    let mut report = good_dvs_report();
    report.dimensions = vec![3, 4];
    match check_array(ArrayType::Dvs, report) {
        Err(CheckArrayError::Dimensions(dims)) => assert_eq!(dims, vec![3, 4]),
        other => panic!("expected a dimensions error, got {:?}", other.err()),
    }
}

#[test]
fn unstructured_array_is_rejected() {
    let mut report = good_dvs_report();
    report.is_structured = false;
    assert!(matches!(
        check_array(ArrayType::Dvs, report),
        Err(CheckArrayError::NotStructured)
    ));
}

#[test]
fn missing_field_is_named() {
    let mut report = good_dvs_report();
    report.fields[1].found = false;
    match check_array(ArrayType::Dvs, report) {
        Err(CheckArrayError::MissingField(name)) => assert_eq!(name, "x"),
        other => panic!("expected a missing-field error, got {:?}", other.err()),
    }
}

#[test]
fn field_type_mismatch_is_named() {
    let mut report = good_dvs_report();
    report.fields[2].type_matches = false;
    report.fields[2].expected_type = String::from("<u2");
    report.fields[2].actual_type = String::from("<u4");
    match check_array(ArrayType::Dvs, report) {
        Err(CheckArrayError::Field { name, expected_type, actual_type }) => {
            assert_eq!(name, "y");
            assert_eq!(expected_type, "<u2");
            assert_eq!(actual_type, "<u4");
        },
        other => panic!("expected a field-type error, got {:?}", other.err()),
    }
}

#[test]
fn field_offset_mismatch_is_named() {
    let mut report = good_dvs_report();
    report.fields[3].actual_offset = 13;
    match check_array(ArrayType::Dvs, report) {
        Err(CheckArrayError::FieldOffset { name, expected_offset, actual_offset }) => {
            assert_eq!(name, "on");
            assert_eq!(expected_offset, 12);
            assert_eq!(actual_offset, 13);
        },
        other => panic!("expected a field-offset error, got {:?}", other.err()),
    }
}

#[test]
fn extra_fields_are_rejected_last() {
    let mut report = good_dvs_report();
    report.actual_names.push(String::from("payload"));
    match check_array(ArrayType::Dvs, report) {
        Err(CheckArrayError::ExtraFields { expected, actual }) => {
            assert_eq!(expected, vec!["t", "x", "y", "on"]);
            assert_eq!(actual.len(), 5);
            assert_eq!(actual[4], "payload");
        },
        other => panic!("expected an extra-fields error, got {:?}", other.err()),
    }
}

#[test]
fn first_failing_field_wins() {
    // Field 1 is missing and field 2 has the wrong type: the scan stops at
    // the first complaint.
    let mut report = good_dvs_report();
    report.fields[1].found = false;
    report.fields[2].type_matches = false;
    assert!(matches!(
        check_array(ArrayType::Dvs, report),
        Err(CheckArrayError::MissingField(_))
    ));
}
