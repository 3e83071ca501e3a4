use roster_csv::chars::trim_str;
use roster_csv::import::{
    check_existing_accounts, import_csv_file, run_reconciliation, validate_csv_file,
    ImportErrorKind,
};
use roster_csv::store::AccountStore;
use roster_csv::transform::{
    batch_transform_records, CreateSchoolAccountRequest, CsvTransformer, TransformError,
    TransformErrorKind,
};
use roster_csv::validation::{parse_csv_bytes, CsvValidator, ValidationErrorType};
use roster_csv::DatabaseAccessor;

const GOOD: &[u8] =
    b"student_id,first_name,middle_name,last_name\n1001,Alice,May,Smith\n1002,Bob,Lee,Jones\n1003,Carol,Ann,Nguyen\n";

fn semester() -> uuid::Uuid {
    uuid::Uuid::parse_str("a1a2a3a4-b1b2-c1c2-d1d2-d3d4d5d6d7d8").unwrap()
}

#[test]
fn valid_file_is_accepted() {
    let v = CsvValidator::new();
    let res = v.validate_file("roster.csv", GOOD).expect("the file is valid");
    assert!(res.is_valid);
    assert_eq!(res.file_name, "roster.csv");
    assert_eq!(res.file_size, GOOD.len());
    assert_eq!(res.total_rows, 3);
    assert_eq!(res.validated_rows, 3);
    assert_eq!(res.invalid_rows, 0);
    assert_eq!(res.encoding, "UTF-8");
    assert_eq!(res.preview_rows.len(), 3);
    assert_eq!(res.preview_rows[0].values, vec!["1001", "Alice", "May", "Smith"]);
    assert!(res.errors.is_empty());
    assert!(res.validation_errors.is_empty());
}

#[test]
fn three_rows_one_empty_first_name() {
    let content =
        b"student_id,first_name,middle_name,last_name\n1001,Alice,May,Smith\n1002,,Lee,Jones\n1003,Carol,Ann,Nguyen\n";
    let v = CsvValidator::new();
    let errs = match v.validate_file("roster.csv", content) {
        Err(e) => e,
        Ok(_) => panic!("a blank required field must fail validation"),
    };
    assert_eq!(errs.len(), 1);
    assert_eq!(errs[0].row_number, 2);
    assert_eq!(errs[0].field.as_deref(), Some("first_name"));
    assert!(matches!(errs[0].error_type, ValidationErrorType::DataIntegrity));
    let parsed = parse_csv_bytes(content);
    let headers = parsed.headers.expect("the header row parses");
    let res = v.validate_parsed("roster.csv", content.len(), true, true, &headers, &parsed.records);
    assert!(!res.is_valid);
    assert_eq!(res.total_rows, 3);
    assert_eq!(res.validated_rows, 2);
    assert_eq!(res.invalid_rows, 1);
}

#[test]
fn oversized_file_reports_file_size() {
    let mut content = b"student_id,first_name,middle_name,last_name\n".to_vec();
    content.extend(std::iter::repeat(b'x').take(11 * 1024 * 1024));
    content.extend_from_slice(b",A,B,C\n");
    let v = CsvValidator::new();
    let errs = v.validate_file("roster.csv", &content).unwrap_err();
    let sizes: Vec<_> = errs
        .iter()
        .filter(|e| matches!(e.error_type, ValidationErrorType::FileSize))
        .collect();
    assert_eq!(sizes.len(), 1);
    assert_eq!(sizes[0].row_number, 0);
}

#[test]
fn wrong_extension_reports_file_type() {
    let v = CsvValidator::new();
    let errs = v.validate_file("roster.txt", GOOD).unwrap_err();
    assert_eq!(errs.len(), 1);
    assert!(matches!(errs[0].error_type, ValidationErrorType::FileType));
    assert!(v.validate_file("roster.CSV", GOOD).is_ok());
    assert!(v.validate_file("csv", GOOD).is_err());
}

#[test]
fn invalid_utf8_reports_encoding() {
    let mut content = b"student_id,first_name,middle_name,last_name\n".to_vec();
    content.extend_from_slice(&[0xFF, 0xFE]);
    content.extend_from_slice(b",A,B,C\n");
    let v = CsvValidator::new();
    let errs = v.validate_file("roster.csv", &content).unwrap_err();
    assert!(errs.iter().any(|e| matches!(e.error_type, ValidationErrorType::Encoding)));
}

#[test]
fn missing_headers_are_reported_exactly() {
    let content = b"student_id,first_name\n1001,Alice\n";
    let v = CsvValidator::new();
    let errs = v.validate_file("roster.csv", content).unwrap_err();
    assert_eq!(errs.len(), 2);
    assert!(errs.iter().all(|e| matches!(e.error_type, ValidationErrorType::HeaderMissing)));
    assert_eq!(errs[0].field.as_deref(), Some("middle_name"));
    assert_eq!(errs[1].field.as_deref(), Some("last_name"));
}

#[test]
fn headers_match_case_insensitively() {
    let content = b"Student_ID,FIRST_NAME,Middle_Name,last_name\n1001,Alice,May,Smith\n";
    let v = CsvValidator::new();
    assert!(v.validate_file("roster.csv", content).is_ok());
}

#[test]
fn whitespace_only_required_field_is_blank() {
    let content = b"student_id,first_name,middle_name,last_name\n1001,   ,May,Smith\n";
    let v = CsvValidator::new();
    let errs = v.validate_file("roster.csv", content).unwrap_err();
    assert_eq!(errs.len(), 1);
    assert_eq!(errs[0].field.as_deref(), Some("first_name"));
    assert!(matches!(errs[0].error_type, ValidationErrorType::DataIntegrity));
}

#[test]
fn optional_field_rules() {
    let head = b"student_id,first_name,middle_name,last_name,gender,is_active,last_updated_semester_id\n";
    let v = CsvValidator::new();

    let mut good = head.to_vec();
    good.extend_from_slice(b"1001,Alice,May,Smith,FEMALE,true,a1a2a3a4-b1b2-c1c2-d1d2-d3d4d5d6d7d8\n");
    assert!(v.validate_file("roster.csv", &good).is_ok());

    let mut bad_gender = head.to_vec();
    bad_gender.extend_from_slice(b"1001,Alice,May,Smith,banana,1,\n");
    let errs = v.validate_file("roster.csv", &bad_gender).unwrap_err();
    assert_eq!(errs.len(), 1);
    assert_eq!(errs[0].field.as_deref(), Some("gender"));
    assert!(matches!(errs[0].error_type, ValidationErrorType::TypeMismatch));

    // the active flag is matched case-sensitively
    let mut bad_active = head.to_vec();
    bad_active.extend_from_slice(b"1001,Alice,May,Smith,male,TRUE,\n");
    let errs = v.validate_file("roster.csv", &bad_active).unwrap_err();
    assert_eq!(errs.len(), 1);
    assert_eq!(errs[0].field.as_deref(), Some("is_active"));

    let mut bad_uuid = head.to_vec();
    bad_uuid.extend_from_slice(b"1001,Alice,May,Smith,male,1,not-a-uuid\n");
    let errs = v.validate_file("roster.csv", &bad_uuid).unwrap_err();
    assert_eq!(errs.len(), 1);
    assert_eq!(errs[0].field.as_deref(), Some("last_updated_semester_id"));
    assert!(matches!(errs[0].error_type, ValidationErrorType::TypeMismatch));
}

#[test]
fn unreadable_rows_count_as_invalid() {
    // the second record has too many fields for the header
    let content = b"student_id,first_name,middle_name,last_name\n1001,Alice,May,Smith\n1002,Bob,Lee,Jones,EXTRA\n";
    let v = CsvValidator::new();
    let errs = v.validate_file("roster.csv", content).unwrap_err();
    assert_eq!(errs.len(), 1);
    assert_eq!(errs[0].row_number, 2);
    assert!(matches!(errs[0].error_type, ValidationErrorType::DataIntegrity));
    assert!(errs[0].field.is_none());
}

#[test]
fn validation_is_idempotent() {
    let v = CsvValidator::new();
    let r1 = v.validate_file("roster.csv", GOOD).unwrap();
    let r2 = v.validate_file("roster.csv", GOOD).unwrap();
    assert_eq!(r1.is_valid, r2.is_valid);
    assert_eq!(r1.file_name, r2.file_name);
    assert_eq!(r1.file_size, r2.file_size);
    assert_eq!(r1.total_rows, r2.total_rows);
    assert_eq!(r1.validated_rows, r2.validated_rows);
    assert_eq!(r1.invalid_rows, r2.invalid_rows);
    assert_eq!(r1.encoding, r2.encoding);
    assert_eq!(r1.errors.len(), r2.errors.len());
    assert_eq!(r1.preview_rows.len(), r2.preview_rows.len());
    for (a, b) in r1.preview_rows.iter().zip(r2.preview_rows.iter()) {
        assert_eq!(a.values, b.values);
    }
}

#[test]
fn rendered_errors_spell_the_kind() {
    let content = b"student_id,first_name\n1001,Alice\n";
    let details = validate_csv_file("roster.csv", content).unwrap_err();
    assert_eq!(details.len(), 2);
    assert_eq!(details[0].error_type, "HeaderMissing");
    assert_eq!(details[0].field.as_deref(), Some("middle_name"));
}

#[test]
fn import_into_empty_store_creates_every_row() {
    let mut store = AccountStore::new();
    let resp = import_csv_file(&mut store, "roster.csv", GOOD, semester(), false)
        .expect("a valid file imports");
    assert!(resp.validation_result.is_valid);
    assert_eq!(resp.total_processed, 3);
    assert_eq!(resp.successful_imports, 3);
    assert_eq!(resp.failed_imports, 0);
    assert!(resp.error_details.is_empty());
    let counts = resp.account_status_counts.unwrap();
    assert_eq!(counts.total_accounts, 3);
    assert_eq!(counts.activated_accounts, 3);
    assert_eq!(counts.deactivated_accounts, 0);
    let info = resp.existing_account_info.unwrap();
    assert_eq!(info.existing_accounts_count, 0);
    assert_eq!(info.new_accounts_count, 3);
    let a = store.find_by_school_id("1002").expect("the account was created");
    assert_eq!(a.first_name, "Bob");
    assert!(a.is_active);
    assert_eq!(a.last_updated_semester_id, Some(semester()));
}

#[test]
fn reimport_without_force_changes_nothing() {
    let mut store = AccountStore::new();
    import_csv_file(&mut store, "roster.csv", GOOD, semester(), false).unwrap();
    let resp = import_csv_file(&mut store, "roster.csv", GOOD, semester(), false).unwrap();
    assert_eq!(resp.successful_imports, 0);
    assert_eq!(resp.failed_imports, 3);
    assert_eq!(resp.error_details.len(), 3);
    assert!(resp
        .error_details
        .iter()
        .all(|e| matches!(e.kind, ImportErrorKind::AlreadyExists)));
    assert_eq!(resp.error_details[0].school_id.as_deref(), Some("1001"));
    assert_eq!(store.count_total(), 3);
    assert_eq!(store.count_active(), 3);
    let a = store.find_by_school_id("1001").unwrap();
    assert_eq!(a.first_name, "Alice");
    assert!(a.is_active);
}

#[test]
fn reimport_with_force_updates_every_row() {
    let mut store = AccountStore::new();
    import_csv_file(&mut store, "roster.csv", GOOD, semester(), false).unwrap();
    let changed =
        b"student_id,first_name,middle_name,last_name\n1001,Alicia,May,Smith\n1002,Bob,Lee,Jones\n1003,Carol,Ann,Nguyen\n";
    let resp = import_csv_file(&mut store, "roster.csv", changed, semester(), true).unwrap();
    assert_eq!(resp.successful_imports, 3);
    assert_eq!(resp.failed_imports, 0);
    let info = resp.existing_account_info.unwrap();
    assert_eq!(info.existing_accounts_count, 3);
    assert_eq!(info.new_accounts_count, 0);
    assert_eq!(store.count_total(), 3);
    assert_eq!(store.find_by_school_id("1001").unwrap().first_name, "Alicia");
}

#[test]
fn reconciliation_deactivates_absent_accounts() {
    let mut store = AccountStore::new();
    import_csv_file(&mut store, "roster.csv", GOOD, semester(), false).unwrap();
    let second = b"student_id,first_name,middle_name,last_name\n2001,Dan,Jo,Field\n";
    let resp = import_csv_file(&mut store, "roster.csv", second, semester(), false).unwrap();
    assert_eq!(resp.successful_imports, 1);
    assert_eq!(store.count_total(), 4);
    assert_eq!(store.count_active(), 1);
    assert!(store.find_by_school_id("2001").unwrap().is_active);
    assert!(!store.find_by_school_id("1001").unwrap().is_active);
    assert!(!store.find_by_school_id("1002").unwrap().is_active);
    let counts = resp.account_status_counts.unwrap();
    assert_eq!(counts.total_accounts, 4);
    assert_eq!(counts.activated_accounts, 1);
    assert_eq!(counts.deactivated_accounts, 3);
}

#[test]
fn invalid_file_never_touches_the_store() {
    let mut store = AccountStore::new();
    import_csv_file(&mut store, "roster.csv", GOOD, semester(), false).unwrap();
    let bad = b"student_id,first_name\n1001,Alice\n";
    let errs = import_csv_file(&mut store, "roster.csv", bad, semester(), false).unwrap_err();
    assert_eq!(errs.len(), 2);
    assert_eq!(store.count_total(), 3);
    assert_eq!(store.count_active(), 3);
}

#[test]
fn reconciliation_tallies_transform_failures() {
    let mut store = AccountStore::new();
    let requests = vec![
        Ok(CreateSchoolAccountRequest {
            school_id: "1001".into(),
            first_name: "Alice".into(),
            middle_name: "May".into(),
            last_name: "Smith".into(),
            gender: None,
            course: None,
            department: None,
            position: None,
            major: None,
            year_level: None,
            is_active: None,
            last_updated_semester_id: None,
        }),
        Err(TransformError { kind: TransformErrorKind::EmptyField, field: "first_name".into() }),
    ];
    let out = run_reconciliation(&mut store, &requests, semester(), false);
    assert_eq!(out.successful, 1);
    assert_eq!(out.failed, 1);
    assert_eq!(out.ids, vec!["1001"]);
    assert_eq!(out.errors.len(), 1);
    assert!(matches!(out.errors[0].kind, ImportErrorKind::TransformFailed));
    assert_eq!(out.errors[0].row, 2);
    assert_eq!(out.errors[0].field.as_deref(), Some("first_name"));
    // the failed row is excluded from activation; the store holds one account
    assert_eq!(store.count_total(), 1);
    let a = store.find_by_school_id("1001").unwrap();
    assert_eq!(a.last_updated_semester_id, Some(semester()));
}

#[test]
fn transformer_resolves_headers_once() {
    let headers: Vec<String> =
        vec!["Student_ID".into(), "first_name".into(), "middle_name".into(), "last_name".into(), "gender".into()];
    let t = CsvTransformer::new(&headers);
    let row: Vec<String> =
        vec![" 1001 ".into(), "Alice".into(), "May".into(), "Smith".into(), " male ".into()];
    let req = t.transform_record(&row).expect("the row transforms");
    assert_eq!(req.school_id, "1001");
    assert_eq!(req.first_name, "Alice");
    assert_eq!(req.gender.as_deref(), Some("male"));
    assert_eq!(req.last_updated_semester_id, None);

    let short: Vec<String> = vec!["1002".into(), "Bob".into(), "  ".into(), "Jones".into()];
    let err = t.transform_record(&short).unwrap_err();
    assert!(matches!(err.kind, TransformErrorKind::EmptyField));
    assert_eq!(err.field, "middle_name");

    let missing = CsvTransformer::new(&vec!["first_name".to_string()]);
    let err = missing.transform_record(&vec!["Alice".to_string()]).unwrap_err();
    assert!(matches!(err.kind, TransformErrorKind::MissingColumn));
    assert_eq!(err.field, "student_id");
}

#[test]
fn batching_has_no_semantic_effect() {
    let headers: Vec<String> =
        vec!["student_id".into(), "first_name".into(), "middle_name".into(), "last_name".into()];
    let t = CsvTransformer::new(&headers);
    let rows: Vec<Vec<String>> = vec![
        vec!["1".into(), "A".into(), "B".into(), "C".into()],
        vec!["2".into(), "D".into(), "E".into(), "F".into()],
        vec!["3".into(), "G".into(), "H".into(), "I".into()],
    ];
    let batches = batch_transform_records(&t, &rows, 2);
    assert_eq!(batches.len(), 2);
    assert_eq!(batches[0].len(), 2);
    assert_eq!(batches[1].len(), 1);
    let flat: Vec<_> = batches.iter().flatten().collect();
    let direct: Vec<_> = rows.iter().map(|r| t.transform_record(r)).collect();
    assert_eq!(flat.len(), direct.len());
    for (a, b) in flat.iter().zip(direct.iter()) {
        match (a, b) {
            (Ok(x), Ok(y)) => assert_eq!(x.school_id, y.school_id),
            (Err(x), Err(y)) => assert_eq!(x.field, y.field),
            _ => panic!("batched and direct transforms disagree"),
        }
    }
}

#[test]
fn existing_account_scan() {
    let mut store = AccountStore::new();
    import_csv_file(&mut store, "roster.csv", GOOD, semester(), false).unwrap();
    let headers: Vec<String> =
        vec!["student_id".into(), "first_name".into(), "middle_name".into(), "last_name".into()];
    let rows: Vec<Vec<String>> = vec![
        vec!["1001".into(), "Alice".into(), "May".into(), "Smith".into()],
        vec!["9999".into(), "New".into(), "Person".into(), "Here".into()],
    ];
    let info = check_existing_accounts(&store, &headers, &rows);
    assert_eq!(info.existing_accounts_count, 1);
    assert_eq!(info.new_accounts_count, 1);
    assert_eq!(info.existing_accounts[0].school_id, "1001");
}

#[test]
fn cross_check_reports_first_matching_row() {
    let mut store = AccountStore::new();
    import_csv_file(&mut store, "roster.csv", GOOD, semester(), false).unwrap();
    let v = CsvValidator::new();
    let headers: Vec<String> =
        vec!["student_id".into(), "first_name".into(), "middle_name".into(), "last_name".into()];
    let rows: Vec<Vec<String>> = vec![
        vec!["7777".into(), "X".into(), "Y".into(), "Z".into()],
        vec![" 1002 ".into(), "Bob".into(), "Lee".into(), "Jones".into()],
    ];
    let infos = v.check_existing_school_accounts(&headers, &rows, &store);
    assert_eq!(infos.len(), 1);
    assert_eq!(infos[0].school_id, "1002");
    assert_eq!(infos[0].existing_id, "1002");
    assert_eq!(infos[0].first_name.as_deref(), Some("Bob"));
    assert_eq!(infos[0].row_number, 2);
}

#[test]
fn trimming_removes_surrounding_whitespace() {
    assert_eq!(trim_str("  padded value \t\r\n"), "padded value");
    assert_eq!(trim_str("   "), "");
    assert_eq!(trim_str("solid"), "solid");
}

#[test]
fn accessor_keeps_its_path() {
    let acc = DatabaseAccessor::new("roster.db".to_string());
    assert_eq!(acc.db_path, "roster.db");
}
