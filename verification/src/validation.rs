//! The record validator: file-level checks (size, extension, encoding),
//! header completeness, and per-row field checks, reported together as one
//! structured validation result.
//!
//! Row numbering convention: row 0 is the file level (size, type, encoding,
//! header problems); row `n` with `n >= 1` is the `n`-th data row after the
//! header line.
use vstd::prelude::*;

use crate::chars::{
    blank, eq_ic, eq_ic_str, field_at, find_header, find_ic, str_eq, trim_str, trimmed, value_at,
};

verus! {

/// The size ceiling for an uploaded file, in bytes (10 MiB).
pub const MAX_FILE_SIZE: usize = 10 * 1024 * 1024;

/// The kind of a validation finding.
#[derive(Clone, Copy, Debug, PartialEq, Eq, Structural)]
pub enum ValidationErrorType {
    FileSize,
    FileType,
    Encoding,
    HeaderMissing,
    DataIntegrity,
    TypeMismatch,
}

/// One validation finding: where it was found, which field it concerns,
/// what kind of problem it is, and a fixed human-readable message.
#[derive(Debug)]
pub struct ValidationError {
    pub row_number: usize,
    pub field: Option<String>,
    pub error_type: ValidationErrorType,
    pub error_message: String,
}

/// Mathematical model of a validation finding.
#[verifier::ext_equal]
pub ghost struct SpecError {
    pub row: int,
    pub field: Option<Seq<char>>,
    pub kind: ValidationErrorType,
    pub message: Seq<char>,
}

impl View for ValidationError {
    type V = SpecError;

    open spec fn view(&self) -> SpecError {
        SpecError {
            row: self.row_number as int,
            field: self.field.deep_view(),
            kind: self.error_type,
            message: self.error_message@,
        }
    }
}

/// The models of a list of findings, in order.
pub open spec fn errs_view(s: Seq<ValidationError>) -> Seq<SpecError> {
    s.map_values(|e: ValidationError| e@)
}

/// The header names that every file must carry (case-insensitively).
pub open spec fn req_names() -> Seq<Seq<char>> {
    seq!["student_id"@, "first_name"@, "middle_name"@, "last_name"@]
}

/// The optional header names the validator recognizes.
pub open spec fn opt_names() -> Seq<Seq<char>> {
    seq![
        "gender"@,
        "course"@,
        "department"@,
        "position"@,
        "major"@,
        "year_level"@,
        "is_active"@,
        "last_updated_semester_id"@,
        "last_updated_semester"@,
    ]
}

pub open spec fn spec_err(
    row: int,
    field: Option<Seq<char>>,
    kind: ValidationErrorType,
    message: Seq<char>,
) -> SpecError {
    SpecError { row, field, kind, message }
}

pub open spec fn file_size_err() -> SpecError {
    spec_err(0, None, ValidationErrorType::FileSize, "file exceeds the maximum size"@)
}

pub open spec fn file_type_err() -> SpecError {
    spec_err(0, None, ValidationErrorType::FileType, "invalid file type; only .csv files are allowed"@)
}

pub open spec fn encoding_err() -> SpecError {
    spec_err(0, None, ValidationErrorType::Encoding, "file is not valid UTF-8"@)
}

pub open spec fn header_read_err() -> SpecError {
    spec_err(0, None, ValidationErrorType::HeaderMissing, "unable to read the CSV header row"@)
}

pub open spec fn missing_header_err(name: Seq<char>) -> SpecError {
    spec_err(0, Some(name), ValidationErrorType::HeaderMissing, "missing required header"@)
}

pub open spec fn req_field_err(name: Seq<char>, row: int) -> SpecError {
    spec_err(row, Some(name), ValidationErrorType::DataIntegrity, "required field is empty"@)
}

pub open spec fn opt_field_err(name: Seq<char>, row: int) -> SpecError {
    spec_err(row, Some(name), ValidationErrorType::TypeMismatch, "invalid value for optional field"@)
}

pub open spec fn parse_err(row: int) -> SpecError {
    spec_err(row, None, ValidationErrorType::DataIntegrity, "invalid CSV record"@)
}

/// Index of the last `.` in a file name, `-1` when there is none.
pub open spec fn last_dot(s: Seq<char>) -> int
    decreases s.len(),
{
    if s.len() == 0 {
        -1
    } else if s[s.len() - 1] == '.' {
        s.len() - 1
    } else {
        last_dot(s.subrange(0, s.len() - 1))
    }
}

/// Whether a file name carries the `.csv` extension (case-insensitively).
/// A name whose only `.` is its first character has no extension.
pub open spec fn ext_ok(name: Seq<char>) -> bool {
    last_dot(name) >= 1 && eq_ic(name.subrange(last_dot(name) + 1, name.len() as int), "csv"@)
}

/// The file-level findings: size ceiling, extension, UTF-8 encoding.
pub open spec fn file_errors(name: Seq<char>, size: int, utf8: bool) -> Seq<SpecError> {
    (if size > MAX_FILE_SIZE { seq![file_size_err()] } else { Seq::empty() }) + (if ext_ok(name) {
        Seq::empty()
    } else {
        seq![file_type_err()]
    }) + (if utf8 {
        Seq::empty()
    } else {
        seq![encoding_err()]
    })
}

/// The missing-header findings for the first `k` required names.
pub open spec fn header_errs_upto(hs: Seq<Seq<char>>, k: int) -> Seq<SpecError>
    decreases k,
{
    if k <= 0 {
        Seq::empty()
    } else {
        header_errs_upto(hs, k - 1) + (if find_ic(hs, req_names()[k - 1]) < 0 {
            seq![missing_header_err(req_names()[k - 1])]
        } else {
            Seq::empty()
        })
    }
}

/// One missing-header finding for each required name absent from `hs`,
/// in the order of `req_names`.
pub open spec fn header_errors(hs: Seq<Seq<char>>) -> Seq<SpecError> {
    header_errs_upto(hs, req_names().len() as int)
}

/// The empty-required-field findings of one row, for the first `k`
/// required names.
pub open spec fn req_errs_upto(hs: Seq<Seq<char>>, rec: Seq<Seq<char>>, row: int, k: int) -> Seq<
    SpecError,
>
    decreases k,
{
    if k <= 0 {
        Seq::empty()
    } else {
        req_errs_upto(hs, rec, row, k - 1) + ({
            let name = req_names()[k - 1];
            let idx = find_ic(hs, name);
            if idx >= 0 && blank(value_at(rec, idx)) {
                seq![req_field_err(name, row)]
            } else {
                Seq::empty()
            }
        })
    }
}

pub open spec fn required_errors(hs: Seq<Seq<char>>, rec: Seq<Seq<char>>, row: int) -> Seq<
    SpecError,
> {
    req_errs_upto(hs, rec, row, req_names().len() as int)
}

/// A non-blank gender value must name one of the recognized genders
/// (case-insensitively) or be a numeric code.
pub open spec fn gender_ok(t: Seq<char>) -> bool {
    eq_ic(t, "male"@) || eq_ic(t, "female"@) || eq_ic(t, "other"@) || eq_ic(t, "0"@) || eq_ic(
        t,
        "1"@,
    ) || eq_ic(t, "2"@)
}

/// A non-blank active flag must be one of the accepted tokens (exactly).
pub open spec fn active_flag_ok(t: Seq<char>) -> bool {
    t == "0"@ || t == "1"@ || t == "true"@ || t == "false"@
}

/// What `uuid::Uuid::parse_str` returns on a given string: whether it is a
/// well-formed UUID. The result depends on the characters alone.
pub uninterp spec fn uuid_ok(s: Seq<char>) -> bool;

/// Relies on `uuid::Uuid::parse_str`: whether a string parses as a UUID is a
/// function of its characters alone, named by `uuid_ok`.
#[verifier::external_body]
fn is_valid_uuid(s: &str) -> (r: bool)
    ensures
        r == uuid_ok(s@),
{
    uuid::Uuid::parse_str(s).is_ok()
}

/// The finding (none or one) of a single optional field of one row:
/// present, non-blank, and failing its rule.
pub open spec fn opt_err_for(
    hs: Seq<Seq<char>>,
    rec: Seq<Seq<char>>,
    row: int,
    name: Seq<char>,
    value_ok: bool,
) -> Seq<SpecError> {
    let idx = find_ic(hs, name);
    if idx >= 0 && !blank(value_at(rec, idx)) && !value_ok {
        seq![opt_field_err(name, row)]
    } else {
        Seq::empty()
    }
}

/// The trimmed value of the column named `name`, empty when absent.
pub open spec fn trimmed_field(hs: Seq<Seq<char>>, rec: Seq<Seq<char>>, name: Seq<char>) -> Seq<
    char,
> {
    trimmed(value_at(rec, find_ic(hs, name)))
}

/// The optional-field findings of one row: gender must be a recognized
/// token, the active flag one of a fixed set, and the semester reference a
/// well-formed UUID. (A year-level value is always accepted.)
pub open spec fn optional_errors(hs: Seq<Seq<char>>, rec: Seq<Seq<char>>, row: int) -> Seq<
    SpecError,
> {
    opt_err_for(hs, rec, row, "gender"@, gender_ok(trimmed_field(hs, rec, "gender"@))) + opt_err_for(
        hs,
        rec,
        row,
        "is_active"@,
        active_flag_ok(trimmed_field(hs, rec, "is_active"@)),
    ) + opt_err_for(
        hs,
        rec,
        row,
        "last_updated_semester_id"@,
        uuid_ok(trimmed_field(hs, rec, "last_updated_semester_id"@)),
    )
}

/// All findings of one data row.
pub open spec fn record_errors(hs: Seq<Seq<char>>, rec: Seq<Seq<char>>, row: int) -> Seq<
    SpecError,
> {
    required_errors(hs, rec, row) + optional_errors(hs, rec, row)
}

fn mk_err(row: usize, field: Option<String>, kind: ValidationErrorType, msg: &str) -> (e:
    ValidationError)
    ensures
        e@ == spec_err(row as int, field.deep_view(), kind, msg@),
{
    ValidationError { row_number: row, field, error_type: kind, error_message: msg.to_owned() }
}

/// The validator's configuration: the size ceiling and the recognized
/// header names.
pub struct CsvValidator {
    max_file_size: usize,
    required_headers: Vec<String>,
    optional_headers: Vec<String>,
}

impl CsvValidator {
    /// The configuration the rest of the contracts assume.
    pub closed spec fn wf(&self) -> bool {
        &&& self.max_file_size == MAX_FILE_SIZE
        &&& self.required_headers.deep_view() == req_names()
        &&& self.optional_headers.deep_view() == opt_names()
    }

    pub fn new() -> (v: Self)
        ensures
            v.wf(),
    {
        let mut required: Vec<String> = Vec::new();
        required.push("student_id".to_owned());
        required.push("first_name".to_owned());
        required.push("middle_name".to_owned());
        required.push("last_name".to_owned());
        let mut optional: Vec<String> = Vec::new();
        optional.push("gender".to_owned());
        optional.push("course".to_owned());
        optional.push("department".to_owned());
        optional.push("position".to_owned());
        optional.push("major".to_owned());
        optional.push("year_level".to_owned());
        optional.push("is_active".to_owned());
        optional.push("last_updated_semester_id".to_owned());
        optional.push("last_updated_semester".to_owned());
        proof {
            assert(required.deep_view() =~= req_names());
            assert(optional.deep_view() =~= opt_names());
        }
        CsvValidator { max_file_size: MAX_FILE_SIZE, required_headers: required, optional_headers: optional }
    }

    /// Reports one missing-header finding per required header absent from
    /// the header row, case-insensitively; `Ok` exactly when none is missing.
    pub fn validate_headers(&self, headers: &Vec<String>) -> (r: Result<(), Vec<ValidationError>>)
        requires
            self.wf(),
        ensures
            match r {
                Ok(()) => header_errors(headers.deep_view()).len() == 0,
                Err(es) => errs_view(es@) == header_errors(headers.deep_view()) && es@.len() > 0,
            },
    {
        let ghost hs = headers.deep_view();
        let mut errs: Vec<ValidationError> = Vec::new();
        let mut k: usize = 0;
        while k < self.required_headers.len()
            invariant
                self.wf(),
                hs == headers.deep_view(),
                0 <= k <= self.required_headers.len(),
                errs_view(errs@) == header_errs_upto(hs, k as int),
            decreases self.required_headers.len() - k,
        {
            let ghost name = req_names()[k as int];
            proof {
                assert(self.required_headers.deep_view()[k as int] == name);
            }
            match find_header(headers, self.required_headers[k].as_str()) {
                Some(_) => {
                    proof {
                        assert(errs_view(errs@) =~= header_errs_upto(hs, k as int + 1));
                    }
                },
                None => {
                    let field = self.required_headers[k].clone();
                    proof {
                        assert(field@ == name);
                    }
                    let e = mk_err(0, Some(field), ValidationErrorType::HeaderMissing, "missing required header");
                    errs.push(e);
                    proof {
                        assert(errs_view(errs@) =~= header_errs_upto(hs, k as int + 1));
                    }
                },
            }
            k = k + 1;
        }
        proof {
            assert(header_errs_upto(hs, 4) == header_errors(hs));
        }
        if errs.is_empty() {
            Ok(())
        } else {
            Err(errs)
        }
    }

    /// Checks one data row: every required field must be non-blank, and each
    /// recognized optional field, when non-blank, must satisfy its rule.
    /// `Ok` exactly when the row has no finding; findings carry `row_number`.
    pub fn validate_record(
        &self,
        record: &Vec<String>,
        headers: &Vec<String>,
        row_number: usize,
    ) -> (r: Result<(), Vec<ValidationError>>)
        requires
            self.wf(),
        ensures
            match r {
                Ok(()) => record_errors(headers.deep_view(), record.deep_view(), row_number as int).len() == 0,
                Err(es) => errs_view(es@) == record_errors(
                    headers.deep_view(),
                    record.deep_view(),
                    row_number as int,
                ) && es@.len() > 0,
            },
    {
        let ghost hs = headers.deep_view();
        let ghost rc = record.deep_view();
        let ghost row = row_number as int;
        let mut errs: Vec<ValidationError> = Vec::new();
        let mut k: usize = 0;
        while k < self.required_headers.len()
            invariant
                self.wf(),
                hs == headers.deep_view(),
                rc == record.deep_view(),
                row == row_number as int,
                0 <= k <= self.required_headers.len(),
                errs_view(errs@) == req_errs_upto(hs, rc, row, k as int),
            decreases self.required_headers.len() - k,
        {
            let ghost name = req_names()[k as int];
            proof {
                assert(self.required_headers.deep_view()[k as int] == name);
            }
            match find_header(headers, self.required_headers[k].as_str()) {
                Some(idx) => {
                    let value = field_at(record, idx);
                    let t = trim_str(value);
                    if t.is_empty() {
                        let field = self.required_headers[k].clone();
                        proof {
                            assert(field@ == name);
                        }
                        let e = mk_err(
                            row_number,
                            Some(field),
                            ValidationErrorType::DataIntegrity,
                            "required field is empty",
                        );
                        errs.push(e);
                    }
                    proof {
                        assert(errs_view(errs@) =~= req_errs_upto(hs, rc, row, k as int + 1));
                    }
                },
                None => {
                    // absent required headers are reported by header validation
                    proof {
                        assert(errs_view(errs@) =~= req_errs_upto(hs, rc, row, k as int + 1));
                    }
                },
            }
            k = k + 1;
        }
        proof {
            assert(req_errs_upto(hs, rc, row, 4) == required_errors(hs, rc, row));
        }
        // gender
        match find_header(headers, "gender") {
            Some(idx) => {
                let t = trim_str(field_at(record, idx));
                if !t.is_empty() {
                    let ok = eq_ic_str(t, "male") || eq_ic_str(t, "female") || eq_ic_str(t, "other")
                        || eq_ic_str(t, "0") || eq_ic_str(t, "1") || eq_ic_str(t, "2");
                    if !ok {
                        let e = mk_err(
                            row_number,
                            Some("gender".to_owned()),
                            ValidationErrorType::TypeMismatch,
                            "invalid value for optional field",
                        );
                        errs.push(e);
                    }
                }
            },
            None => {},
        }
        proof {
            assert(errs_view(errs@) =~= required_errors(hs, rc, row) + opt_err_for(
                hs,
                rc,
                row,
                "gender"@,
                gender_ok(trimmed_field(hs, rc, "gender"@)),
            ));
        }
        // is_active
        match find_header(headers, "is_active") {
            Some(idx) => {
                let t = trim_str(field_at(record, idx));
                if !t.is_empty() {
                    let ok = str_eq(t, "0") || str_eq(t, "1") || str_eq(t, "true") || str_eq(
                        t,
                        "false",
                    );
                    if !ok {
                        let e = mk_err(
                            row_number,
                            Some("is_active".to_owned()),
                            ValidationErrorType::TypeMismatch,
                            "invalid value for optional field",
                        );
                        errs.push(e);
                    }
                }
            },
            None => {},
        }
        proof {
            assert(errs_view(errs@) =~= required_errors(hs, rc, row) + opt_err_for(
                hs,
                rc,
                row,
                "gender"@,
                gender_ok(trimmed_field(hs, rc, "gender"@)),
            ) + opt_err_for(
                hs,
                rc,
                row,
                "is_active"@,
                active_flag_ok(trimmed_field(hs, rc, "is_active"@)),
            ));
        }
        // last_updated_semester_id
        match find_header(headers, "last_updated_semester_id") {
            Some(idx) => {
                let t = trim_str(field_at(record, idx));
                if !t.is_empty() {
                    let ok = is_valid_uuid(t);
                    if !ok {
                        let e = mk_err(
                            row_number,
                            Some("last_updated_semester_id".to_owned()),
                            ValidationErrorType::TypeMismatch,
                            "invalid value for optional field",
                        );
                        errs.push(e);
                    }
                }
            },
            None => {},
        }
        proof {
            assert(errs_view(errs@) =~= record_errors(hs, rc, row));
        }
        if errs.is_empty() {
            Ok(())
        } else {
            Err(errs)
        }
    }
}

/// Whether a file name carries the `.csv` extension, case-insensitively.
pub fn ext_is_csv(name: &str) -> (r: bool)
    ensures
        r == ext_ok(name@),
{
    let len = name.unicode_len();
    proof {
        assert(name@.subrange(0, len as int) =~= name@);
    }
    let mut i: usize = len;
    while i > 0
        invariant
            0 <= i <= len,
            len == name@.len(),
            last_dot(name@) == last_dot(name@.subrange(0, i as int)),
        decreases i,
    {
        let c = name.get_char(i - 1);
        if c == '.' {
            proof {
                assert(name@.subrange(0, i as int)[i as int - 1] == '.');
                assert(last_dot(name@.subrange(0, i as int)) == i - 1);
            }
            if i >= 2 {
                let sub = name.substring_char(i, len);
                return eq_ic_str(sub, "csv");
            } else {
                return false;
            }
        }
        proof {
            assert(name@.subrange(0, i as int)[i as int - 1] != '.');
            assert(name@.subrange(0, i as int).subrange(0, i as int - 1) =~= name@.subrange(
                0,
                i as int - 1,
            ));
        }
        i = i - 1;
    }
    proof {
        assert(name@.subrange(0, 0).len() == 0);
        assert(last_dot(name@) == -1);
    }
    false
}

/// One row of the bounded preview, kept verbatim for caller display.
#[derive(Debug)]
pub struct SerializableStringRecord {
    pub values: Vec<String>,
}

impl View for SerializableStringRecord {
    type V = Seq<Seq<char>>;

    open spec fn view(&self) -> Seq<Seq<char>> {
        self.values.deep_view()
    }
}

impl DeepView for SerializableStringRecord {
    type V = Seq<Seq<char>>;

    open spec fn deep_view(&self) -> Seq<Seq<char>> {
        self.values.deep_view()
    }
}

/// The aggregate result of validating one file.
#[derive(Debug)]
pub struct CsvValidationResult {
    pub is_valid: bool,
    pub file_name: String,
    pub file_size: usize,
    pub total_rows: usize,
    pub validated_rows: usize,
    pub invalid_rows: usize,
    pub encoding: String,
    pub preview_rows: Vec<SerializableStringRecord>,
    pub validation_errors: Vec<ValidationError>,
    pub errors: Vec<ValidationError>,
}

/// Mathematical model of a validation result.
#[verifier::ext_equal]
pub ghost struct SpecValidation {
    pub is_valid: bool,
    pub file_name: Seq<char>,
    pub file_size: int,
    pub total_rows: int,
    pub validated_rows: int,
    pub invalid_rows: int,
    pub encoding: Seq<char>,
    pub preview: Seq<Seq<Seq<char>>>,
    pub errors: Seq<SpecError>,
}

impl View for CsvValidationResult {
    type V = SpecValidation;

    open spec fn view(&self) -> SpecValidation {
        SpecValidation {
            is_valid: self.is_valid,
            file_name: self.file_name@,
            file_size: self.file_size as int,
            total_rows: self.total_rows as int,
            validated_rows: self.validated_rows as int,
            invalid_rows: self.invalid_rows as int,
            encoding: self.encoding@,
            preview: self.preview_rows.deep_view(),
            errors: errs_view(self.errors@),
        }
    }
}

/// The findings of one data row: its field findings when it parsed, one
/// data-integrity finding when it did not.
pub open spec fn row_step(hs: Seq<Seq<char>>, orec: Option<Seq<Seq<char>>>, row: int) -> Seq<
    SpecError,
> {
    match orec {
        Some(rec) => record_errors(hs, rec, row),
        None => seq![parse_err(row)],
    }
}

/// The row findings of the first `k` data rows, in file order.
pub open spec fn rows_errs_upto(
    hs: Seq<Seq<char>>,
    recs: Seq<Option<Seq<Seq<char>>>>,
    k: int,
) -> Seq<SpecError>
    decreases k,
{
    if k <= 0 {
        Seq::empty()
    } else {
        rows_errs_upto(hs, recs, k - 1) + row_step(hs, recs[k - 1], k)
    }
}

pub open spec fn rows_errors(hs: Seq<Seq<char>>, recs: Seq<Option<Seq<Seq<char>>>>) -> Seq<
    SpecError,
> {
    rows_errs_upto(hs, recs, recs.len() as int)
}

/// Whether the `row`-th data row parsed and has no finding.
pub open spec fn row_valid(hs: Seq<Seq<char>>, orec: Option<Seq<Seq<char>>>, row: int) -> bool {
    orec matches Some(rec) && record_errors(hs, rec, row).len() == 0
}

/// How many of the first `k` data rows are valid.
pub open spec fn valid_upto(hs: Seq<Seq<char>>, recs: Seq<Option<Seq<Seq<char>>>>, k: int) -> int
    decreases k,
{
    if k <= 0 {
        0
    } else {
        valid_upto(hs, recs, k - 1) + (if row_valid(hs, recs[k - 1], k) {
            1int
        } else {
            0int
        })
    }
}

/// The rows kept for preview: those of the first five records that parsed,
/// regardless of their validity.
pub open spec fn preview_upto(recs: Seq<Option<Seq<Seq<char>>>>, k: int) -> Seq<Seq<Seq<char>>>
    decreases k,
{
    if k <= 0 {
        Seq::empty()
    } else {
        preview_upto(recs, k - 1) + (if k - 1 < 5 && recs[k - 1] is Some {
            seq![recs[k - 1]->0]
        } else {
            Seq::empty()
        })
    }
}

/// Every finding of one validation pass, in report order: file level, then
/// header level, then the rows in file order.
pub open spec fn all_errors(
    name: Seq<char>,
    size: int,
    utf8: bool,
    header_ok: bool,
    hs: Seq<Seq<char>>,
    recs: Seq<Option<Seq<Seq<char>>>>,
) -> Seq<SpecError> {
    file_errors(name, size, utf8) + (if header_ok {
        Seq::empty()
    } else {
        seq![header_read_err()]
    }) + header_errors(hs) + rows_errors(hs, recs)
}

/// The full model of validating one file, as a function of the file's name,
/// size, encoding check, and parsed shape.
pub open spec fn validation_spec(
    name: Seq<char>,
    size: int,
    utf8: bool,
    header_ok: bool,
    hs: Seq<Seq<char>>,
    recs: Seq<Option<Seq<Seq<char>>>>,
) -> SpecValidation {
    let errors = all_errors(name, size, utf8, header_ok, hs, recs);
    SpecValidation {
        is_valid: errors.len() == 0,
        file_name: name,
        file_size: size,
        total_rows: recs.len() as int,
        validated_rows: valid_upto(hs, recs, recs.len() as int),
        invalid_rows: recs.len() - valid_upto(hs, recs, recs.len() as int),
        encoding: "UTF-8"@,
        preview: preview_upto(recs, recs.len() as int),
        errors,
    }
}

/// Copies one row of string fields.
pub fn clone_string_vec(v: &Vec<String>) -> (r: Vec<String>)
    ensures
        r@ == v@,
{
    let mut r: Vec<String> = Vec::new();
    let mut i: usize = 0;
    while i < v.len()
        invariant
            0 <= i <= v.len(),
            r@ == v@.subrange(0, i as int),
        decreases v.len() - i,
    {
        r.push(v[i].clone());
        proof {
            assert(r@ =~= v@.subrange(0, i as int + 1));
        }
        i = i + 1;
    }
    proof {
        assert(v@.subrange(0, v@.len() as int) =~= v@);
    }
    r
}

fn clone_error(e: &ValidationError) -> (r: ValidationError)
    ensures
        r == e,
{
    let field = match &e.field {
        Some(f) => Some(f.clone()),
        None => None,
    };
    ValidationError {
        row_number: e.row_number,
        field,
        error_type: e.error_type,
        error_message: e.error_message.clone(),
    }
}

/// Copies a list of findings; the duplicate list a validation result carries.
pub fn clone_errors(v: &Vec<ValidationError>) -> (r: Vec<ValidationError>)
    ensures
        r@ == v@,
{
    let mut r: Vec<ValidationError> = Vec::new();
    let mut i: usize = 0;
    while i < v.len()
        invariant
            0 <= i <= v.len(),
            r@ == v@.subrange(0, i as int),
        decreases v.len() - i,
    {
        r.push(clone_error(&v[i]));
        proof {
            assert(r@ =~= v@.subrange(0, i as int + 1));
        }
        i = i + 1;
    }
    proof {
        assert(v@.subrange(0, v@.len() as int) =~= v@);
    }
    r
}

/// What parsing a comma-delimited byte buffer yields: the header row, when
/// one could be read, and each data record (fields, or nothing for a record
/// that is not well-formed CSV). A function of the bytes alone.
pub uninterp spec fn csv_parse(bytes: Seq<u8>) -> (
    Option<Seq<Seq<char>>>,
    Seq<Option<Seq<Seq<char>>>>,
);

/// The header row of a parse, empty when none could be read.
pub open spec fn parsed_headers(p: (Option<Seq<Seq<char>>>, Seq<Option<Seq<Seq<char>>>>)) -> Seq<
    Seq<char>,
> {
    match p.0 {
        Some(h) => h,
        None => Seq::empty(),
    }
}

/// A parsed file: the header row, when one could be read, and the data
/// records in file order, `None` standing for a record that would not parse.
pub struct ParsedCsv {
    pub headers: Option<Vec<String>>,
    pub records: Vec<Option<Vec<String>>>,
}

/// Relies on `csv::Reader` (default configuration): parsing a
/// comma-delimited buffer into a header row and data records is a function
/// of the bytes alone, named by `csv_parse`.
#[verifier::external_body]
pub fn parse_csv_bytes(bytes: &[u8]) -> (r: ParsedCsv)
    ensures
        r.headers.deep_view() == csv_parse(bytes@).0,
        r.records.deep_view() == csv_parse(bytes@).1,
{
    let mut rdr = csv::Reader::from_reader(bytes);
    let headers = match rdr.headers() {
        Ok(h) => Some(h.iter().map(|f| f.to_string()).collect()),
        Err(_) => None,
    };
    let records = rdr
        .records()
        .map(|res| res.ok().map(|rec| rec.iter().map(|f| f.to_string()).collect()))
        .collect();
    ParsedCsv { headers, records }
}

/// Relies on `std::str::from_utf8`: it returns `Ok` exactly when the bytes
/// are valid UTF-8, as `vstd::utf8::valid_utf8` defines it.
#[verifier::external_body]
pub fn utf8_ok(bytes: &[u8]) -> (r: bool)
    ensures
        r == vstd::utf8::valid_utf8(bytes@),
{
    std::str::from_utf8(bytes).is_ok()
}

impl CsvValidator {
    /// Validates an already-parsed file against every rule at once: size
    /// ceiling, extension, encoding, header completeness, and every data
    /// row. The result is exactly `validation_spec` of the inputs; its
    /// duplicate error list equals its error list.
    pub fn validate_parsed(
        &self,
        file_name: &str,
        file_size: usize,
        utf8: bool,
        header_ok: bool,
        headers: &Vec<String>,
        records: &Vec<Option<Vec<String>>>,
    ) -> (r: CsvValidationResult)
        requires
            self.wf(),
        ensures
            r@ == validation_spec(
                file_name@,
                file_size as int,
                utf8,
                header_ok,
                headers.deep_view(),
                records.deep_view(),
            ),
            errs_view(r.validation_errors@) == r@.errors,
    {
        let ghost hs = headers.deep_view();
        let ghost recs = records.deep_view();
        let mut errors: Vec<ValidationError> = Vec::new();
        if file_size > self.max_file_size {
            errors.push(
                mk_err(0, None, ValidationErrorType::FileSize, "file exceeds the maximum size"),
            );
        }
        if !ext_is_csv(file_name) {
            errors.push(
                mk_err(
                    0,
                    None,
                    ValidationErrorType::FileType,
                    "invalid file type; only .csv files are allowed",
                ),
            );
        }
        if !utf8 {
            errors.push(mk_err(0, None, ValidationErrorType::Encoding, "file is not valid UTF-8"));
        }
        proof {
            assert(errs_view(errors@) =~= file_errors(file_name@, file_size as int, utf8));
        }
        if !header_ok {
            errors.push(
                mk_err(
                    0,
                    None,
                    ValidationErrorType::HeaderMissing,
                    "unable to read the CSV header row",
                ),
            );
        }
        let ghost through_read = file_errors(file_name@, file_size as int, utf8) + (if header_ok {
            Seq::<SpecError>::empty()
        } else {
            seq![header_read_err()]
        });
        proof {
            assert(errs_view(errors@) =~= through_read);
        }
        match self.validate_headers(headers) {
            Ok(()) => {
                proof {
                    assert(errs_view(errors@) =~= through_read + header_errors(hs));
                }
            },
            Err(mut hes) => {
                errors.append(&mut hes);
                proof {
                    assert(errs_view(errors@) =~= through_read + header_errors(hs));
                }
            },
        }
        let ghost pre = through_read + header_errors(hs);
        let mut preview_rows: Vec<SerializableStringRecord> = Vec::new();
        let mut valid: usize = 0;
        let mut invalid: usize = 0;
        let mut idx: usize = 0;
        while idx < records.len()
            invariant
                self.wf(),
                hs == headers.deep_view(),
                recs == records.deep_view(),
                recs.len() == records@.len(),
                0 <= idx <= records@.len(),
                valid + invalid == idx,
                errs_view(errors@) == pre + rows_errs_upto(hs, recs, idx as int),
                valid == valid_upto(hs, recs, idx as int),
                preview_rows.deep_view() == preview_upto(recs, idx as int),
            decreases records@.len() - idx,
        {
            let ghost row = idx as int + 1;
            match &records[idx] {
                Some(rec) => {
                    proof {
                        assert(recs[idx as int] == Some(rec.deep_view()));
                    }
                    if idx < 5 {
                        let values = clone_string_vec(rec);
                        preview_rows.push(SerializableStringRecord { values });
                    }
                    proof {
                        assert(preview_rows.deep_view() =~= preview_upto(recs, idx as int + 1));
                    }
                    match self.validate_record(rec, headers, idx + 1) {
                        Ok(()) => {
                            valid = valid + 1;
                            proof {
                                assert(row_step(hs, recs[idx as int], row) =~= Seq::<
                                    SpecError,
                                >::empty());
                                assert(errs_view(errors@) =~= pre + rows_errs_upto(
                                    hs,
                                    recs,
                                    idx as int + 1,
                                ));
                            }
                        },
                        Err(mut res) => {
                            invalid = invalid + 1;
                            let ghost res0 = res@;
                            let ghost before = errors@;
                            errors.append(&mut res);
                            proof {
                                assert(errors@ == before + res0);
                                assert(errs_view(res0) == record_errors(hs, rec.deep_view(), row));
                                assert(rows_errs_upto(hs, recs, idx as int + 1) == rows_errs_upto(
                                    hs,
                                    recs,
                                    idx as int,
                                ) + row_step(hs, recs[idx as int], row));
                                assert(row_step(hs, recs[idx as int], row) == record_errors(
                                    hs,
                                    rec.deep_view(),
                                    row,
                                ));
                                assert(errs_view(errors@) =~= errs_view(before) + errs_view(res0));
                                assert(errs_view(before) + errs_view(res0) =~= pre + (
                                rows_errs_upto(hs, recs, idx as int) + record_errors(
                                    hs,
                                    rec.deep_view(),
                                    row,
                                )));
                                assert(errs_view(errors@) =~= pre + rows_errs_upto(
                                    hs,
                                    recs,
                                    idx as int + 1,
                                ));
                            }
                        },
                    }
                },
                None => {
                    proof {
                        assert(recs[idx as int] is None);
                    }
                    invalid = invalid + 1;
                    let e = mk_err(
                        idx + 1,
                        None,
                        ValidationErrorType::DataIntegrity,
                        "invalid CSV record",
                    );
                    let ghost ev = e@;
                    let ghost before = errors@;
                    errors.push(e);
                    proof {
                        assert(preview_rows.deep_view() =~= preview_upto(recs, idx as int + 1));
                        assert(ev == parse_err(row));
                        assert(rows_errs_upto(hs, recs, idx as int + 1) == rows_errs_upto(
                            hs,
                            recs,
                            idx as int,
                        ) + row_step(hs, recs[idx as int], row));
                        assert(row_step(hs, recs[idx as int], row) == seq![parse_err(row)]);
                        assert(errs_view(errors@) =~= errs_view(before).push(ev));
                        assert(errs_view(before).push(ev) =~= pre + (rows_errs_upto(
                            hs,
                            recs,
                            idx as int,
                        ) + seq![parse_err(row)]));
                        assert(errs_view(errors@) =~= pre + rows_errs_upto(
                            hs,
                            recs,
                            idx as int + 1,
                        ));
                    }
                },
            }
            idx = idx + 1;
        }
        let is_valid = errors.is_empty();
        let validation_errors = clone_errors(&errors);
        let r = CsvValidationResult {
            is_valid,
            file_name: file_name.to_owned(),
            file_size,
            total_rows: records.len(),
            validated_rows: valid,
            invalid_rows: invalid,
            encoding: "UTF-8".to_owned(),
            preview_rows,
            validation_errors,
            errors,
        };
        proof {
            assert(r@ =~= validation_spec(
                file_name@,
                file_size as int,
                utf8,
                header_ok,
                hs,
                recs,
            ));
        }
        r
    }

    /// Validates a file given its name and raw contents: checks the size
    /// ceiling, the `.csv` extension, UTF-8 encoding, header completeness
    /// and every data row, and reports all findings of the pass together.
    /// Returns the full result when the file is valid, and the complete
    /// list of findings otherwise.
    pub fn validate_file(&self, file_name: &str, content: &[u8]) -> (r: Result<
        CsvValidationResult,
        Vec<ValidationError>,
    >)
        requires
            self.wf(),
        ensures
            ({
                let p = csv_parse(content@);
                let sv = validation_spec(
                    file_name@,
                    content@.len() as int,
                    vstd::utf8::valid_utf8(content@),
                    p.0 is Some,
                    parsed_headers(p),
                    p.1,
                );
                match r {
                    Ok(v) => sv.is_valid && v@ == sv && errs_view(v.validation_errors@)
                        == sv.errors,
                    Err(es) => !sv.is_valid && errs_view(es@) == sv.errors,
                }
            }),
    {
        let utf8 = utf8_ok(content);
        let size = content.len();
        let parsed = parse_csv_bytes(content);
        let ghost p = csv_parse(content@);
        let records = parsed.records;
        let (header_ok, headers) = match parsed.headers {
            Some(h) => (true, h),
            None => (false, Vec::new()),
        };
        proof {
            if p.0 is None {
                assert(headers.deep_view() =~= parsed_headers(p));
            }
            assert(headers.deep_view() == parsed_headers(p));
        }
        let result = self.validate_parsed(file_name, size, utf8, header_ok, &headers, &records);
        if result.is_valid {
            Ok(result)
        } else {
            let es = clone_errors(&result.errors);
            Err(es)
        }
    }
}

/// Whether a finding is an empty-required-field finding for the given data
/// row and field.
pub open spec fn err_matches(e: SpecError, row: int, name: Seq<char>) -> bool {
    e.row == row && e.field == Some(name) && e.kind == ValidationErrorType::DataIntegrity
}

/// How many findings of `s` have the given kind.
pub open spec fn count_kind(s: Seq<SpecError>, k: ValidationErrorType) -> int
    decreases s.len(),
{
    if s.len() == 0 {
        0
    } else {
        count_kind(s.drop_last(), k) + (if s.last().kind == k {
            1int
        } else {
            0int
        })
    }
}

/// How many findings of `s` report an empty `name` on data row `row`.
pub open spec fn count_field(s: Seq<SpecError>, row: int, name: Seq<char>) -> int
    decreases s.len(),
{
    if s.len() == 0 {
        0
    } else {
        count_field(s.drop_last(), row, name) + (if err_matches(s.last(), row, name) {
            1int
        } else {
            0int
        })
    }
}

proof fn lemma_count_kind_add(a: Seq<SpecError>, b: Seq<SpecError>, k: ValidationErrorType)
    ensures
        count_kind(a + b, k) == count_kind(a, k) + count_kind(b, k),
    decreases b.len(),
{
    if b.len() == 0 {
        assert(a + b =~= a);
    } else {
        assert((a + b).drop_last() =~= a + b.drop_last());
        lemma_count_kind_add(a, b.drop_last(), k);
        assert((a + b).last() == b.last());
    }
}

proof fn lemma_count_field_add(a: Seq<SpecError>, b: Seq<SpecError>, row: int, name: Seq<char>)
    ensures
        count_field(a + b, row, name) == count_field(a, row, name) + count_field(b, row, name),
    decreases b.len(),
{
    if b.len() == 0 {
        assert(a + b =~= a);
    } else {
        assert((a + b).drop_last() =~= a + b.drop_last());
        lemma_count_field_add(a, b.drop_last(), row, name);
        assert((a + b).last() == b.last());
    }
}

proof fn lemma_count_kind_single(e: SpecError, k: ValidationErrorType)
    ensures
        count_kind(seq![e], k) == (if e.kind == k {
            1int
        } else {
            0int
        }),
{
    assert(seq![e].drop_last() =~= Seq::<SpecError>::empty());
    assert(count_kind(Seq::<SpecError>::empty(), k) == 0);
    assert(seq![e].last() == e);
}

proof fn lemma_count_field_single(e: SpecError, row: int, name: Seq<char>)
    ensures
        count_field(seq![e], row, name) == (if err_matches(e, row, name) {
            1int
        } else {
            0int
        }),
{
    assert(seq![e].drop_last() =~= Seq::<SpecError>::empty());
    assert(count_field(Seq::<SpecError>::empty(), row, name) == 0);
    assert(seq![e].last() == e);
}

proof fn lemma_count_kind_none(s: Seq<SpecError>, k: ValidationErrorType)
    requires
        forall|i: int| 0 <= i < s.len() ==> #[trigger] s[i].kind != k,
    ensures
        count_kind(s, k) == 0,
    decreases s.len(),
{
    if s.len() > 0 {
        assert(forall|i: int|
            0 <= i < s.drop_last().len() ==> #[trigger] s.drop_last()[i].kind != k);
        lemma_count_kind_none(s.drop_last(), k);
        assert(s.last().kind != k);
    }
}

proof fn lemma_count_field_none(s: Seq<SpecError>, row: int, name: Seq<char>)
    requires
        forall|i: int| 0 <= i < s.len() ==> !err_matches(#[trigger] s[i], row, name),
    ensures
        count_field(s, row, name) == 0,
    decreases s.len(),
{
    if s.len() > 0 {
        assert(forall|i: int|
            0 <= i < s.drop_last().len() ==> !err_matches(#[trigger] s.drop_last()[i], row, name));
        lemma_count_field_none(s.drop_last(), row, name);
        assert(!err_matches(s.last(), row, name));
    }
}

/// Every finding of the header pass is a missing-header finding at the file
/// level.
proof fn lemma_header_errs_shape(hs: Seq<Seq<char>>, k: int)
    requires
        0 <= k,
    ensures
        forall|i: int|
            0 <= i < header_errs_upto(hs, k).len() ==> ((#[trigger] header_errs_upto(hs, k)[i]).kind
                == ValidationErrorType::HeaderMissing && header_errs_upto(hs, k)[i].row == 0),
    decreases k,
{
    if k > 0 {
        lemma_header_errs_shape(hs, k - 1);
        let s0 = header_errs_upto(hs, k - 1);
        let s1 = header_errs_upto(hs, k);
        assert forall|i: int| 0 <= i < s1.len() implies ((#[trigger] s1[i]).kind
            == ValidationErrorType::HeaderMissing && s1[i].row == 0) by {
            if i < s0.len() {
                assert(s1[i] == s0[i]);
            } else {
                assert(s1[i] == missing_header_err(req_names()[k - 1]));
            }
        }
    }
}

/// Every finding of one data row carries that row's number and a row-level
/// kind.
proof fn lemma_record_errors_shape(hs: Seq<Seq<char>>, rec: Seq<Seq<char>>, row: int)
    ensures
        forall|i: int|
            0 <= i < record_errors(hs, rec, row).len() ==> (((#[trigger] record_errors(
                hs,
                rec,
                row,
            )[i]).kind == ValidationErrorType::DataIntegrity || record_errors(hs, rec, row)[i].kind
                == ValidationErrorType::TypeMismatch) && record_errors(hs, rec, row)[i].row == row),
{
    lemma_req_errs_shape(hs, rec, row, req_names().len() as int);
    let r = required_errors(hs, rec, row);
    let o = optional_errors(hs, rec, row);
    let s = record_errors(hs, rec, row);
    assert forall|i: int| 0 <= i < s.len() implies (((#[trigger] s[i]).kind
        == ValidationErrorType::DataIntegrity || s[i].kind == ValidationErrorType::TypeMismatch)
        && s[i].row == row) by {
        if i < r.len() {
            assert(s[i] == r[i]);
        } else {
            let g = opt_err_for(hs, rec, row, "gender"@, gender_ok(trimmed_field(hs, rec, "gender"@)));
            let a = opt_err_for(
                hs,
                rec,
                row,
                "is_active"@,
                active_flag_ok(trimmed_field(hs, rec, "is_active"@)),
            );
            let u = opt_err_for(
                hs,
                rec,
                row,
                "last_updated_semester_id"@,
                uuid_ok(trimmed_field(hs, rec, "last_updated_semester_id"@)),
            );
            assert(o == g + a + u);
            assert(s[i] == o[i - r.len()]);
            assert(o[i - r.len()].kind == ValidationErrorType::TypeMismatch && o[i - r.len()].row
                == row);
        }
    }
}

/// Every finding of the required-field pass is a data-integrity finding for
/// its row.
proof fn lemma_req_errs_shape(hs: Seq<Seq<char>>, rec: Seq<Seq<char>>, row: int, k: int)
    requires
        0 <= k,
    ensures
        forall|i: int|
            0 <= i < req_errs_upto(hs, rec, row, k).len() ==> ((#[trigger] req_errs_upto(
                hs,
                rec,
                row,
                k,
            )[i]).kind == ValidationErrorType::DataIntegrity && req_errs_upto(hs, rec, row, k)[i].row
                == row),
    decreases k,
{
    if k > 0 {
        lemma_req_errs_shape(hs, rec, row, k - 1);
        let s0 = req_errs_upto(hs, rec, row, k - 1);
        let s1 = req_errs_upto(hs, rec, row, k);
        assert forall|i: int| 0 <= i < s1.len() implies ((#[trigger] s1[i]).kind
            == ValidationErrorType::DataIntegrity && s1[i].row == row) by {
            if i < s0.len() {
                assert(s1[i] == s0[i]);
            } else {
                assert(s1[i] == req_field_err(req_names()[k - 1], row));
            }
        }
    }
}

/// Every row-pass finding carries the number of a data row, which is never
/// the file level, and a row-level kind.
proof fn lemma_rows_errs_shape(hs: Seq<Seq<char>>, recs: Seq<Option<Seq<Seq<char>>>>, k: int)
    requires
        0 <= k,
    ensures
        forall|i: int|
            0 <= i < rows_errs_upto(hs, recs, k).len() ==> (((#[trigger] rows_errs_upto(
                hs,
                recs,
                k,
            )[i]).kind == ValidationErrorType::DataIntegrity || rows_errs_upto(hs, recs, k)[i].kind
                == ValidationErrorType::TypeMismatch) && 1 <= rows_errs_upto(hs, recs, k)[i].row
                <= k),
    decreases k,
{
    if k > 0 {
        lemma_rows_errs_shape(hs, recs, k - 1);
        let s0 = rows_errs_upto(hs, recs, k - 1);
        let s1 = rows_errs_upto(hs, recs, k);
        let step = row_step(hs, recs[k - 1], k);
        if recs[k - 1] is Some {
            lemma_record_errors_shape(hs, recs[k - 1]->0, k);
        }
        assert forall|i: int| 0 <= i < s1.len() implies (((#[trigger] s1[i]).kind
            == ValidationErrorType::DataIntegrity || s1[i].kind == ValidationErrorType::TypeMismatch)
            && 1 <= s1[i].row <= k) by {
            if i < s0.len() {
                assert(s1[i] == s0[i]);
            } else {
                assert(s1[i] == step[i - s0.len()]);
            }
        }
    }
}

/// A file over the size ceiling: validation is invalid and reports exactly
/// one file-size finding, beside whatever other findings the pass
/// accumulates.
pub proof fn lemma_file_size_reported(
    name: Seq<char>,
    size: int,
    utf8: bool,
    header_ok: bool,
    hs: Seq<Seq<char>>,
    recs: Seq<Option<Seq<Seq<char>>>>,
)
    requires
        size > MAX_FILE_SIZE,
    ensures
        ({
            let sv = validation_spec(name, size, utf8, header_ok, hs, recs);
            &&& !sv.is_valid
            &&& sv.errors.contains(file_size_err())
            &&& count_kind(sv.errors, ValidationErrorType::FileSize) == 1
        }),
{
    let f = file_errors(name, size, utf8);
    let b = if header_ok {
        Seq::<SpecError>::empty()
    } else {
        seq![header_read_err()]
    };
    let h = header_errors(hs);
    let rw = rows_errors(hs, recs);
    let all = all_errors(name, size, utf8, header_ok, hs, recs);
    assert(all == f + b + h + rw);
    assert(f[0] == file_size_err());
    assert(all[0] == file_size_err());
    assert(all.contains(file_size_err())) by {
        assert(0 <= 0 < all.len() && all[0] == file_size_err());
    }
    let fs = ValidationErrorType::FileSize;
    let x = if ext_ok(name) {
        Seq::<SpecError>::empty()
    } else {
        seq![file_type_err()]
    };
    let u = if utf8 {
        Seq::<SpecError>::empty()
    } else {
        seq![encoding_err()]
    };
    assert(f == seq![file_size_err()] + x + u);
    lemma_count_kind_add(seq![file_size_err()] + x, u, fs);
    lemma_count_kind_add(seq![file_size_err()], x, fs);
    lemma_count_kind_single(file_size_err(), fs);
    assert(count_kind(x, fs) == 0) by {
        lemma_count_kind_none(x, fs);
    }
    assert(count_kind(u, fs) == 0) by {
        lemma_count_kind_none(u, fs);
    }
    assert(count_kind(b, fs) == 0) by {
        lemma_count_kind_none(b, fs);
    }
    assert(count_kind(h, fs) == 0) by {
        lemma_header_errs_shape(hs, req_names().len() as int);
        lemma_count_kind_none(h, fs);
    }
    assert(count_kind(rw, fs) == 0) by {
        lemma_rows_errs_shape(hs, recs, recs.len() as int);
        lemma_count_kind_none(rw, fs);
    }
    lemma_count_kind_add(f + b + h, rw, fs);
    lemma_count_kind_add(f + b, h, fs);
    lemma_count_kind_add(f, b, fs);
}

proof fn lemma_seq_contains_add(a: Seq<SpecError>, b: Seq<SpecError>, x: SpecError)
    ensures
        (a + b).contains(x) <==> a.contains(x) || b.contains(x),
{
    if a.contains(x) {
        let w = choose|i: int| 0 <= i < a.len() && a[i] == x;
        assert((a + b)[w] == x);
    }
    if b.contains(x) {
        let w = choose|i: int| 0 <= i < b.len() && b[i] == x;
        assert((a + b)[a.len() + w] == x);
    }
    if (a + b).contains(x) {
        let w = choose|i: int| 0 <= i < (a + b).len() && (a + b)[i] == x;
        if w < a.len() {
            assert(a[w] == x);
        } else {
            assert(b[w - a.len()] == x);
        }
    }
}

/// The header pass reports a required name exactly when it is missing.
proof fn lemma_header_upto_contains(hs: Seq<Seq<char>>, k: int, e: SpecError)
    requires
        0 <= k <= req_names().len(),
    ensures
        header_errs_upto(hs, k).contains(e) <==> exists|j: int|
            0 <= j < k && e == missing_header_err(#[trigger] req_names()[j]) && find_ic(
                hs,
                req_names()[j],
            ) < 0,
    decreases k,
{
    if k > 0 {
        lemma_header_upto_contains(hs, k - 1, e);
        let s0 = header_errs_upto(hs, k - 1);
        let x = if find_ic(hs, req_names()[k - 1]) < 0 {
            seq![missing_header_err(req_names()[k - 1])]
        } else {
            Seq::<SpecError>::empty()
        };
        lemma_seq_contains_add(s0, x, e);
        if x.contains(e) {
            let w = choose|i: int| 0 <= i < x.len() && x[i] == e;
            assert(e == missing_header_err(req_names()[k - 1]));
        }
        if exists|j: int|
            0 <= j < k && e == missing_header_err(#[trigger] req_names()[j]) && find_ic(
                hs,
                req_names()[j],
            ) < 0 {
            let j = choose|j: int|
                0 <= j < k && e == missing_header_err(#[trigger] req_names()[j]) && find_ic(
                    hs,
                    req_names()[j],
                ) < 0;
            if j == k - 1 {
                assert(x[0] == e);
            }
        }
    }
}

/// Missing headers are reported exactly: when the header row was read, the
/// pass reports a missing-header finding for a required name exactly when no
/// header matches it case-insensitively, and any missing required name makes
/// the file invalid.
pub proof fn lemma_missing_headers_reported(
    name: Seq<char>,
    size: int,
    utf8: bool,
    hs: Seq<Seq<char>>,
    recs: Seq<Option<Seq<Seq<char>>>>,
    j: int,
)
    requires
        0 <= j < req_names().len(),
    ensures
        ({
            let sv = validation_spec(name, size, utf8, true, hs, recs);
            &&& sv.errors.contains(missing_header_err(req_names()[j])) <==> find_ic(
                hs,
                req_names()[j],
            ) < 0
            &&& find_ic(hs, req_names()[j]) < 0 ==> !sv.is_valid
        }),
{
    let f = file_errors(name, size, utf8);
    let b = Seq::<SpecError>::empty();
    let h = header_errors(hs);
    let rw = rows_errors(hs, recs);
    let all = all_errors(name, size, utf8, true, hs, recs);
    let e = missing_header_err(req_names()[j]);
    assert(all == f + b + h + rw);
    lemma_seq_contains_add(f + b + h, rw, e);
    lemma_seq_contains_add(f + b, h, e);
    lemma_seq_contains_add(f, b, e);
    lemma_header_upto_contains(hs, req_names().len() as int, e);
    // the file-level findings never carry the missing-header kind
    assert(!f.contains(e)) by {
        if f.contains(e) {
            let w = choose|i: int| 0 <= i < f.len() && f[i] == e;
            let x = if ext_ok(name) {
                Seq::<SpecError>::empty()
            } else {
                seq![file_type_err()]
            };
            let u = if utf8 {
                Seq::<SpecError>::empty()
            } else {
                seq![encoding_err()]
            };
            assert(f == (if size > MAX_FILE_SIZE {
                seq![file_size_err()]
            } else {
                Seq::<SpecError>::empty()
            }) + x + u);
            assert(f[w].kind != ValidationErrorType::HeaderMissing);
        }
    }
    assert(!rw.contains(e)) by {
        if rw.contains(e) {
            let w = choose|i: int| 0 <= i < rw.len() && rw[i] == e;
            lemma_rows_errs_shape(hs, recs, recs.len() as int);
            assert(rw[w].kind != ValidationErrorType::HeaderMissing);
        }
    }
    if h.contains(e) {
        let w = choose|j2: int|
            0 <= j2 < req_names().len() && e == missing_header_err(#[trigger] req_names()[j2])
                && find_ic(hs, req_names()[j2]) < 0;
        assert(req_names()[w] == req_names()[j]);
    }
    if find_ic(hs, req_names()[j]) < 0 {
        assert(h.contains(e));
        assert(all.contains(e));
        let w = choose|i: int| 0 <= i < all.len() && all[i] == e;
        assert(all.len() > 0);
    }
}

/// Two validations of the same unchanged file agree: the validation model is
/// a function of the file's name, size, encoding and parsed shape alone, so
/// any two results that meet the validator's contract on the same inputs are
/// identical.
pub proof fn lemma_validation_idempotent(
    r1: SpecValidation,
    r2: SpecValidation,
    name: Seq<char>,
    size: int,
    utf8: bool,
    header_ok: bool,
    hs: Seq<Seq<char>>,
    recs: Seq<Option<Seq<Seq<char>>>>,
)
    requires
        r1 == validation_spec(name, size, utf8, header_ok, hs, recs),
        r2 == validation_spec(name, size, utf8, header_ok, hs, recs),
    ensures
        r1 == r2,
{
}

/// The four required header names are pairwise distinct.
proof fn lemma_req_names_distinct()
    ensures
        forall|i: int, j: int|
            0 <= i < j < req_names().len() ==> #[trigger] req_names()[i] != #[trigger] req_names()[j],
{
    reveal_strlit("student_id");
    reveal_strlit("first_name");
    reveal_strlit("middle_name");
    reveal_strlit("last_name");
    assert(req_names()[0].len() == 10);
    assert(req_names()[1].len() == 10);
    assert(req_names()[2].len() == 11);
    assert(req_names()[3].len() == 9);
    assert(req_names()[0][0] == 's' && req_names()[1][0] == 'f');
    assert forall|i: int, j: int|
        0 <= i < j < req_names().len() implies #[trigger] req_names()[i]
        != #[trigger] req_names()[j] by {
        if i == 0 && j == 1 {
            assert(req_names()[0][0] != req_names()[1][0]);
        }
    }
}

proof fn lemma_req_errs_count(
    hs: Seq<Seq<char>>,
    rec: Seq<Seq<char>>,
    row: int,
    j: int,
    k: int,
)
    requires
        0 <= j < req_names().len(),
        0 <= k <= req_names().len(),
        find_ic(hs, req_names()[j]) >= 0,
        blank(value_at(rec, find_ic(hs, req_names()[j]))),
    ensures
        count_field(req_errs_upto(hs, rec, row, k), row, req_names()[j]) == (if j < k {
            1int
        } else {
            0int
        }),
    decreases k,
{
    lemma_req_names_distinct();
    if k > 0 {
        lemma_req_errs_count(hs, rec, row, j, k - 1);
        let s0 = req_errs_upto(hs, rec, row, k - 1);
        let nm = req_names()[k - 1];
        let x = if find_ic(hs, nm) >= 0 && blank(value_at(rec, find_ic(hs, nm))) {
            seq![req_field_err(nm, row)]
        } else {
            Seq::<SpecError>::empty()
        };
        lemma_count_field_add(s0, x, row, req_names()[j]);
        lemma_count_field_single(req_field_err(nm, row), row, req_names()[j]);
        if j == k - 1 {
            assert(x == seq![req_field_err(nm, row)]);
            assert(err_matches(req_field_err(nm, row), row, req_names()[j]));
        } else {
            assert(nm != req_names()[j]);
            assert(!err_matches(req_field_err(nm, row), row, req_names()[j]));
        }
    }
}

/// Exactly one data-integrity finding is produced for a blank required field
/// of one row: counted over the row's own findings.
proof fn lemma_record_field_count(hs: Seq<Seq<char>>, rec: Seq<Seq<char>>, row: int, j: int)
    requires
        0 <= j < req_names().len(),
        find_ic(hs, req_names()[j]) >= 0,
        blank(value_at(rec, find_ic(hs, req_names()[j]))),
    ensures
        count_field(record_errors(hs, rec, row), row, req_names()[j]) == 1,
{
    lemma_req_errs_count(hs, rec, row, j, req_names().len() as int);
    let r = required_errors(hs, rec, row);
    let o = optional_errors(hs, rec, row);
    assert(count_field(o, row, req_names()[j]) == 0) by {
        let g = opt_err_for(hs, rec, row, "gender"@, gender_ok(trimmed_field(hs, rec, "gender"@)));
        let a = opt_err_for(
            hs,
            rec,
            row,
            "is_active"@,
            active_flag_ok(trimmed_field(hs, rec, "is_active"@)),
        );
        let u = opt_err_for(
            hs,
            rec,
            row,
            "last_updated_semester_id"@,
            uuid_ok(trimmed_field(hs, rec, "last_updated_semester_id"@)),
        );
        assert(o == g + a + u);
        assert forall|i: int| 0 <= i < o.len() implies !err_matches(
            #[trigger] o[i],
            row,
            req_names()[j],
        ) by {
            if i < g.len() {
                assert(o[i] == g[i]);
                assert(o[i].kind == ValidationErrorType::TypeMismatch);
            } else if i < g.len() + a.len() {
                assert(o[i] == a[i - g.len()]);
                assert(o[i].kind == ValidationErrorType::TypeMismatch);
            } else {
                assert(o[i] == u[i - g.len() - a.len()]);
                assert(o[i].kind == ValidationErrorType::TypeMismatch);
            }
        }
        lemma_count_field_none(o, row, req_names()[j]);
    }
    lemma_count_field_add(r, o, row, req_names()[j]);
}

proof fn lemma_rows_field_count(
    hs: Seq<Seq<char>>,
    recs: Seq<Option<Seq<Seq<char>>>>,
    row: int,
    name: Seq<char>,
    k: int,
)
    requires
        1 <= row,
        0 <= k,
    ensures
        count_field(rows_errs_upto(hs, recs, k), row, name) == (if row <= k {
            count_field(row_step(hs, recs[row - 1], row), row, name)
        } else {
            0int
        }),
    decreases k,
{
    if k > 0 {
        lemma_rows_field_count(hs, recs, row, name, k - 1);
        let s0 = rows_errs_upto(hs, recs, k - 1);
        let step = row_step(hs, recs[k - 1], k);
        lemma_count_field_add(s0, step, row, name);
        if row != k {
            assert(count_field(step, row, name) == 0) by {
                if recs[k - 1] is Some {
                    lemma_record_errors_shape(hs, recs[k - 1]->0, k);
                }
                assert forall|i: int| 0 <= i < step.len() implies !err_matches(
                    #[trigger] step[i],
                    row,
                    name,
                ) by {
                    assert(step[i].row == k);
                }
                lemma_count_field_none(step, row, name);
            }
        }
    }
}

/// A blank required field in one data row: validation is invalid, and
/// exactly one data-integrity finding for that field and row appears in the
/// full report.
pub proof fn lemma_empty_required_field_reported(
    name: Seq<char>,
    size: int,
    utf8: bool,
    header_ok: bool,
    hs: Seq<Seq<char>>,
    recs: Seq<Option<Seq<Seq<char>>>>,
    m: int,
    j: int,
)
    requires
        0 <= m < recs.len(),
        recs[m] is Some,
        0 <= j < req_names().len(),
        find_ic(hs, req_names()[j]) >= 0,
        blank(value_at(recs[m]->0, find_ic(hs, req_names()[j]))),
    ensures
        ({
            let sv = validation_spec(name, size, utf8, header_ok, hs, recs);
            &&& count_field(sv.errors, m + 1, req_names()[j]) == 1
            &&& !sv.is_valid
        }),
{
    let f = file_errors(name, size, utf8);
    let b = if header_ok {
        Seq::<SpecError>::empty()
    } else {
        seq![header_read_err()]
    };
    let h = header_errors(hs);
    let rw = rows_errors(hs, recs);
    let all = all_errors(name, size, utf8, header_ok, hs, recs);
    let fname = req_names()[j];
    let row = m + 1;
    assert(all == f + b + h + rw);
    // the row's own findings carry exactly one match
    lemma_record_field_count(hs, recs[m]->0, row, j);
    lemma_rows_field_count(hs, recs, row, fname, recs.len() as int);
    assert(row_step(hs, recs[row - 1], row) == record_errors(hs, recs[m]->0, row));
    assert(count_field(rw, row, fname) == 1);
    // the file- and header-level findings are at the file level, row 0
    assert(count_field(f, row, fname) == 0) by {
        let x = if ext_ok(name) {
            Seq::<SpecError>::empty()
        } else {
            seq![file_type_err()]
        };
        let u = if utf8 {
            Seq::<SpecError>::empty()
        } else {
            seq![encoding_err()]
        };
        assert(f == (if size > MAX_FILE_SIZE {
            seq![file_size_err()]
        } else {
            Seq::<SpecError>::empty()
        }) + x + u);
        assert forall|i: int| 0 <= i < f.len() implies !err_matches(
            #[trigger] f[i],
            row,
            fname,
        ) by {
            assert(f[i].row == 0);
        }
        lemma_count_field_none(f, row, fname);
    }
    assert(count_field(b, row, fname) == 0) by {
        lemma_count_field_none(b, row, fname);
    }
    assert(count_field(h, row, fname) == 0) by {
        lemma_header_errs_shape(hs, req_names().len() as int);
        assert forall|i: int| 0 <= i < h.len() implies !err_matches(
            #[trigger] h[i],
            row,
            fname,
        ) by {
            assert(h[i].row == 0);
        }
        lemma_count_field_none(h, row, fname);
    }
    lemma_count_field_add(f + b + h, rw, row, fname);
    lemma_count_field_add(f + b, h, row, fname);
    lemma_count_field_add(f, b, row, fname);
    assert(count_field(all, row, fname) == 1);
    // a match exists, so the report is not empty
    assert(!(all.len() == 0)) by {
        if all.len() == 0 {
            assert(all =~= Seq::<SpecError>::empty());
            assert(rw.len() == 0);
            assert(count_field(rw, row, fname) == 0);
        }
    }
}

} // verus!
