//! The import reconciler: drives the two-phase "deactivate all, then
//! reactivate what the file names" transition over the account store,
//! creating or updating one account per transformed row and tabulating
//! per-row outcomes.
use vstd::prelude::*;

use crate::chars::contains_str;
use crate::store::{
    account_of, deactivated, has_key, idx_of, updated_account, with_active, AccountStore,
    SchoolAccount, SpecAccount,
};
use crate::store::{active_count, lemma_active_upto_le, lemma_has_key_iff, lemma_idx_of_props};
use crate::transform::{
    lemma_transforms_upto_len, res_view, results_view, transforms, transforms_upto,
    CreateSchoolAccountRequest, CsvTransformer, SpecRequest, SpecTransformError, TransformError,
};
use crate::validation::{
    all_errors, clone_string_vec, csv_parse, errs_view, parse_csv_bytes, parsed_headers,
    validation_spec, CsvValidationResult, CsvValidator, SpecError, ValidationError,
    ValidationErrorType,
};

verus! {

/// The store-wide activation tallies after an import run.
#[derive(Debug)]
pub struct AccountStatusCounts {
    pub total_accounts: usize,
    pub activated_accounts: usize,
    pub deactivated_accounts: usize,
}

/// The split between rows that matched an existing account and rows that
/// would create a new one.
#[derive(Debug)]
pub struct ExistingAccountInfo {
    pub existing_accounts: Vec<SchoolAccount>,
    pub new_accounts_count: usize,
    pub existing_accounts_count: usize,
}

#[derive(Clone, Copy, Debug, PartialEq, Eq, Structural)]
pub enum ImportErrorKind {
    AlreadyExists,
    TransformFailed,
}

/// One per-row import failure: which row, what went wrong, and the key or
/// field concerned. Serialized to text only at the caller-facing boundary.
#[derive(Debug)]
pub struct ImportRowError {
    pub row: usize,
    pub kind: ImportErrorKind,
    pub school_id: Option<String>,
    pub field: Option<String>,
}

/// Mathematical model of a per-row import failure.
#[verifier::ext_equal]
pub ghost struct SpecRowError {
    pub row: int,
    pub kind: ImportErrorKind,
    pub school_id: Option<Seq<char>>,
    pub field: Option<Seq<char>>,
}

impl View for ImportRowError {
    type V = SpecRowError;

    open spec fn view(&self) -> SpecRowError {
        SpecRowError {
            row: self.row as int,
            kind: self.kind,
            school_id: self.school_id.deep_view(),
            field: self.field.deep_view(),
        }
    }
}

pub open spec fn already_exists_err(row: int, school_id: Seq<char>) -> SpecRowError {
    SpecRowError { row, kind: ImportErrorKind::AlreadyExists, school_id: Some(school_id), field: None }
}

pub open spec fn transform_row_err(row: int, e: SpecTransformError) -> SpecRowError {
    SpecRowError { row, kind: ImportErrorKind::TransformFailed, school_id: None, field: Some(e.field) }
}

/// The models of a list of per-row failures, in order.
pub open spec fn row_errs_view(s: Seq<ImportRowError>) -> Seq<SpecRowError> {
    s.map_values(|e: ImportRowError| e@)
}

/// The models of a list of accounts, in order.
pub open spec fn accounts_view(s: Seq<SchoolAccount>) -> Seq<SpecAccount> {
    s.map_values(|a: SchoolAccount| a@)
}

/// A request as the reconciler applies it: stamped with the caller-supplied
/// semester reference.
pub open spec fn stamp(r: SpecRequest, sem: uuid::Uuid) -> SpecRequest {
    SpecRequest {
        school_id: r.school_id,
        first_name: r.first_name,
        middle_name: r.middle_name,
        last_name: r.last_name,
        gender: r.gender,
        course: r.course,
        department: r.department,
        position: r.position,
        major: r.major,
        year_level: r.year_level,
        is_active: r.is_active,
        last_updated_semester_id: Some(sem),
    }
}

/// The running state of one reconciliation pass: the store's contents, the
/// activation list collected so far, the tallies, the per-row failures, and
/// the accounts that an update touched.
#[verifier::ext_equal]
pub ghost struct SpecRecon {
    pub store: Seq<SpecAccount>,
    pub ids: Seq<Seq<char>>,
    pub successful: int,
    pub failed: int,
    pub errors: Seq<SpecRowError>,
    pub existing: Seq<SpecAccount>,
}

pub open spec fn recon_init(s: Seq<SpecAccount>) -> SpecRecon {
    SpecRecon {
        store: s,
        ids: Seq::empty(),
        successful: 0,
        failed: 0,
        errors: Seq::empty(),
        existing: Seq::empty(),
    }
}

/// One reconciliation step, for the `row`-th transform result: a failed
/// transform is tallied and excluded from activation; a request's key always
/// joins the activation list; an existing key is updated under
/// `force`, and is a failure otherwise; a fresh key creates an account.
pub open spec fn recon_step(
    st: SpecRecon,
    req: Result<SpecRequest, SpecTransformError>,
    sem: uuid::Uuid,
    force: bool,
    row: int,
) -> SpecRecon {
    match req {
        Err(e) => SpecRecon {
            store: st.store,
            ids: st.ids,
            successful: st.successful,
            failed: st.failed + 1,
            errors: st.errors.push(transform_row_err(row, e)),
            existing: st.existing,
        },
        Ok(r0) => {
            let r = stamp(r0, sem);
            let ids = st.ids.push(r.school_id);
            let i = idx_of(st.store, r.school_id);
            if i >= 0 {
                if force {
                    SpecRecon {
                        store: st.store.update(i, updated_account(st.store[i], r)),
                        ids,
                        successful: st.successful + 1,
                        failed: st.failed,
                        errors: st.errors,
                        existing: st.existing.push(updated_account(st.store[i], r)),
                    }
                } else {
                    SpecRecon {
                        store: st.store,
                        ids,
                        successful: st.successful,
                        failed: st.failed + 1,
                        errors: st.errors.push(already_exists_err(row, r.school_id)),
                        existing: st.existing,
                    }
                }
            } else {
                SpecRecon {
                    store: st.store.push(account_of(r)),
                    ids,
                    successful: st.successful + 1,
                    failed: st.failed,
                    errors: st.errors,
                    existing: st.existing,
                }
            }
        },
    }
}

/// The reconciliation state after the first `k` transform results.
pub open spec fn recon_upto(
    s0: Seq<SpecAccount>,
    reqs: Seq<Result<SpecRequest, SpecTransformError>>,
    sem: uuid::Uuid,
    force: bool,
    k: int,
) -> SpecRecon
    decreases k,
{
    if k <= 0 {
        recon_init(s0)
    } else {
        recon_step(recon_upto(s0, reqs, sem, force, k - 1), reqs[k - 1], sem, force, k)
    }
}

/// The reconciliation state after every transform result, starting from the
/// store contents `s0`.
pub open spec fn recon(
    s0: Seq<SpecAccount>,
    reqs: Seq<Result<SpecRequest, SpecTransformError>>,
    sem: uuid::Uuid,
    force: bool,
) -> SpecRecon {
    recon_upto(s0, reqs, sem, force, reqs.len() as int)
}

/// What the per-row phase of one import run reports.
pub struct ReconOutcome {
    pub ids: Vec<String>,
    pub successful: usize,
    pub failed: usize,
    pub errors: Vec<ImportRowError>,
    pub existing: Vec<SchoolAccount>,
}

fn clone_opt_string(o: &Option<String>) -> (r: Option<String>)
    ensures
        r == o,
{
    match o {
        Some(s) => Some(s.clone()),
        None => None,
    }
}

/// A copy of the request, stamped with the caller-supplied semester.
fn stamp_request(req: &CreateSchoolAccountRequest, sem: uuid::Uuid) -> (r:
    CreateSchoolAccountRequest)
    ensures
        r@ == stamp(req@, sem),
{
    CreateSchoolAccountRequest {
        school_id: req.school_id.clone(),
        first_name: req.first_name.clone(),
        middle_name: req.middle_name.clone(),
        last_name: req.last_name.clone(),
        gender: clone_opt_string(&req.gender),
        course: clone_opt_string(&req.course),
        department: clone_opt_string(&req.department),
        position: clone_opt_string(&req.position),
        major: clone_opt_string(&req.major),
        year_level: clone_opt_string(&req.year_level),
        is_active: req.is_active,
        last_updated_semester_id: Some(sem),
    }
}

/// Runs the per-row phase of an import over the store, in file order:
/// stamps each request with the semester, collects its key for activation,
/// and creates or updates per the `force_update` policy; failed transforms
/// are tallied and excluded from activation. The outcome and the store's new
/// contents are exactly the `recon` fold of the inputs.
pub fn run_reconciliation(
    store: &mut AccountStore,
    requests: &Vec<Result<CreateSchoolAccountRequest, TransformError>>,
    semester_id: uuid::Uuid,
    force_update: bool,
) -> (r: ReconOutcome)
    requires
        old(store).wf(),
    ensures
        ({
            let rc = recon(old(store)@, results_view(requests@), semester_id, force_update);
            &&& final(store)@ == rc.store
            &&& final(store).wf()
            &&& r.ids.deep_view() == rc.ids
            &&& r.successful == rc.successful
            &&& r.failed == rc.failed
            &&& row_errs_view(r.errors@) == rc.errors
            &&& accounts_view(r.existing@) == rc.existing
            &&& r.successful + r.failed == requests@.len()
            &&& r.existing@.len() <= r.successful
        }),
{
    let ghost s0 = store@;
    let ghost reqs = results_view(requests@);
    let mut ids: Vec<String> = Vec::new();
    let mut successful: usize = 0;
    let mut failed: usize = 0;
    let mut errors: Vec<ImportRowError> = Vec::new();
    let mut existing: Vec<SchoolAccount> = Vec::new();
    let mut idx: usize = 0;
    while idx < requests.len()
        invariant
            store.wf(),
            reqs == results_view(requests@),
            reqs.len() == requests@.len(),
            0 <= idx <= requests@.len(),
            successful + failed == idx,
            existing@.len() <= successful,
            ({
                let st = recon_upto(s0, reqs, semester_id, force_update, idx as int);
                &&& store@ == st.store
                &&& ids.deep_view() == st.ids
                &&& successful == st.successful
                &&& failed == st.failed
                &&& row_errs_view(errors@) == st.errors
                &&& accounts_view(existing@) == st.existing
            }),
        decreases requests@.len() - idx,
    {
        let ghost st = recon_upto(s0, reqs, semester_id, force_update, idx as int);
        let ghost row = idx as int + 1;
        proof {
            assert(reqs[idx as int] == res_view(requests@[idx as int]));
        }
        match &requests[idx] {
            Ok(req) => {
                let stamped = stamp_request(req, semester_id);
                ids.push(stamped.school_id.clone());
                proof {
                    assert(ids.deep_view() =~= st.ids.push(stamp(req@, semester_id).school_id));
                }
                match store.find_by_school_id(stamped.school_id.as_str()) {
                    Some(found) => {
                        if force_update {
                            let updated = SchoolAccount {
                                school_id: found.school_id,
                                first_name: stamped.first_name.clone(),
                                middle_name: stamped.middle_name.clone(),
                                last_name: stamped.last_name.clone(),
                                is_active: found.is_active,
                                last_updated_semester_id: stamped.last_updated_semester_id,
                            };
                            proof {
                                assert(updated@ == updated_account(
                                    st.store[idx_of(st.store, stamp(req@, semester_id).school_id)],
                                    stamp(req@, semester_id),
                                ));
                            }
                            let did = store.update(stamped.school_id.as_str(), &stamped);
                            successful = successful + 1;
                            existing.push(updated);
                            proof {
                                assert(accounts_view(existing@) =~= st.existing.push(
                                    updated_account(
                                        st.store[idx_of(
                                            st.store,
                                            stamp(req@, semester_id).school_id,
                                        )],
                                        stamp(req@, semester_id),
                                    ),
                                ));
                            }
                        } else {
                            failed = failed + 1;
                            let e = ImportRowError {
                                row: idx + 1,
                                kind: ImportErrorKind::AlreadyExists,
                                school_id: Some(stamped.school_id.clone()),
                                field: None,
                            };
                            errors.push(e);
                            proof {
                                assert(row_errs_view(errors@) =~= st.errors.push(
                                    already_exists_err(row, stamp(req@, semester_id).school_id),
                                ));
                            }
                        }
                    },
                    None => {
                        store.create(&stamped);
                        successful = successful + 1;
                    },
                }
            },
            Err(e) => {
                failed = failed + 1;
                let detail = ImportRowError {
                    row: idx + 1,
                    kind: ImportErrorKind::TransformFailed,
                    school_id: None,
                    field: Some(e.field.clone()),
                };
                errors.push(detail);
                proof {
                    assert(row_errs_view(errors@) =~= st.errors.push(transform_row_err(row, e@)));
                }
            },
        }
        idx = idx + 1;
        proof {
            assert(recon_upto(s0, reqs, semester_id, force_update, idx as int) == recon_step(
                st,
                reqs[idx as int - 1],
                semester_id,
                force_update,
                idx as int,
            ));
        }
    }
    ReconOutcome { ids, successful, failed, errors, existing }
}

/// The store's contents after the deactivation sweep.
pub open spec fn deact_all(s: Seq<SpecAccount>) -> Seq<SpecAccount> {
    Seq::new(s.len(), |i: int| deactivated(s[i]))
}

/// The store's contents after the activation sweep over `ids`.
pub open spec fn activate_seq(s: Seq<SpecAccount>, ids: Seq<Seq<char>>) -> Seq<SpecAccount> {
    Seq::new(
        s.len(),
        |i: int| with_active(s[i], s[i].is_active || contains_str(ids, s[i].school_id)),
    )
}

/// The rows that parsed, of the first `k` records, in file order.
pub open spec fn ok_rows_upto(recs: Seq<Option<Seq<Seq<char>>>>, k: int) -> Seq<Seq<Seq<char>>>
    decreases k,
{
    if k <= 0 {
        Seq::empty()
    } else {
        ok_rows_upto(recs, k - 1) + (match recs[k - 1] {
            Some(r) => seq![r],
            None => Seq::empty(),
        })
    }
}

/// The rows that parsed, in file order.
pub open spec fn ok_rows(recs: Seq<Option<Seq<Seq<char>>>>) -> Seq<Seq<Seq<char>>> {
    ok_rows_upto(recs, recs.len() as int)
}

/// Keeps the records that parsed, dropping the others.
pub fn ok_records(records: &Vec<Option<Vec<String>>>) -> (r: Vec<Vec<String>>)
    ensures
        r.deep_view() == ok_rows(records.deep_view()),
{
    let ghost recs = records.deep_view();
    let mut r: Vec<Vec<String>> = Vec::new();
    let mut i: usize = 0;
    while i < records.len()
        invariant
            recs == records.deep_view(),
            recs.len() == records@.len(),
            0 <= i <= records@.len(),
            r.deep_view() == ok_rows_upto(recs, i as int),
        decreases records@.len() - i,
    {
        match &records[i] {
            Some(rec) => {
                proof {
                    assert(recs[i as int] == Some(rec.deep_view()));
                }
                r.push(clone_string_vec(rec));
                proof {
                    assert(r.deep_view() =~= ok_rows_upto(recs, i as int + 1));
                }
            },
            None => {
                proof {
                    assert(recs[i as int] is None);
                    assert(r.deep_view() =~= ok_rows_upto(recs, i as int + 1));
                }
            },
        }
        i = i + 1;
    }
    r
}

/// The caller-facing summary of one import run.
#[derive(Debug)]
pub struct CsvImportResponse {
    pub validation_result: CsvValidationResult,
    pub total_processed: usize,
    pub successful_imports: usize,
    pub failed_imports: usize,
    pub error_details: Vec<ImportRowError>,
    pub existing_account_info: Option<ExistingAccountInfo>,
    pub account_status_counts: Option<AccountStatusCounts>,
}

/// Validates the file, and if it is valid runs the reconciliation: a
/// deactivation sweep, one create-or-update per transformed row in file
/// order, then one activation sweep over the keys the file names. An invalid
/// file aborts with the validation findings and leaves the store untouched.
/// The outcome's tallies, details and the store's new contents are exactly
/// the `recon` fold of the transformed rows, swept as `activate_seq` says;
/// `activated + deactivated == total` holds of the reported counts.
#[verifier::rlimit(50)]
pub fn import_csv_file(
    store: &mut AccountStore,
    file_name: &str,
    content: &[u8],
    semester_id: uuid::Uuid,
    force_update: bool,
) -> (r: Result<CsvImportResponse, Vec<ValidationError>>)
    requires
        old(store).wf(),
    ensures
        final(store).wf(),
        ({
            let p = csv_parse(content@);
            let sv = validation_spec(
                file_name@,
                content@.len() as int,
                vstd::utf8::valid_utf8(content@),
                p.0 is Some,
                parsed_headers(p),
                p.1,
            );
            let reqs = transforms(parsed_headers(p), ok_rows(p.1));
            let rc = recon(deact_all(old(store)@), reqs, semester_id, force_update);
            match r {
                Err(es) => !sv.is_valid && errs_view(es@) == sv.errors && final(store)@ == old(
                    store,
                )@,
                Ok(resp) => {
                    &&& sv.is_valid
                    &&& resp.validation_result@ == sv
                    &&& final(store)@ == activate_seq(rc.store, rc.ids)
                    &&& resp.total_processed == reqs.len()
                    &&& resp.successful_imports == rc.successful
                    &&& resp.failed_imports == rc.failed
                    &&& resp.successful_imports + resp.failed_imports == resp.total_processed
                    &&& row_errs_view(resp.error_details@) == rc.errors
                    &&& resp.existing_account_info matches Some(info) && accounts_view(
                        info.existing_accounts@,
                    ) == rc.existing && info.existing_accounts_count == rc.existing.len()
                        && info.new_accounts_count + info.existing_accounts_count
                        == resp.total_processed
                    &&& resp.account_status_counts matches Some(c) && c.total_accounts
                        == rc.store.len() && (c.activated_accounts as int) == (if rc.ids.len()
                        == 0 {
                        0int
                    } else {
                        active_count(activate_seq(rc.store, rc.ids))
                    }) && c.activated_accounts + c.deactivated_accounts == c.total_accounts
                },
            }
        }),
{
    let ghost s0 = store@;
    let ghost p = csv_parse(content@);
    let validator = CsvValidator::new();
    let vres = match validator.validate_file(file_name, content) {
        Ok(v) => v,
        Err(es) => {
            return Err(es);
        },
    };
    let parsed = parse_csv_bytes(content);
    let headers = match parsed.headers {
        Some(h) => h,
        None => {
            proof {
                // a file whose header row cannot be read is never valid
                assert(all_errors(
                    file_name@,
                    content@.len() as int,
                    vstd::utf8::valid_utf8(content@),
                    false,
                    parsed_headers(p),
                    p.1,
                ).len() > 0);
                assert(false);
            }
            Vec::new()
        },
    };
    proof {
        assert(headers.deep_view() == parsed_headers(p));
    }
    let ok_recs = ok_records(&parsed.records);
    let ghost rows = ok_rows(p.1);
    let transformer = CsvTransformer::new(&headers);
    let mut requests: Vec<Result<CreateSchoolAccountRequest, TransformError>> = Vec::new();
    let mut i: usize = 0;
    while i < ok_recs.len()
        invariant
            transformer.wf(),
            transformer.spec_headers() == parsed_headers(p),
            rows == ok_recs.deep_view(),
            rows.len() == ok_recs@.len(),
            0 <= i <= ok_recs@.len(),
            results_view(requests@) == transforms_upto(parsed_headers(p), rows, i as int),
        decreases ok_recs@.len() - i,
    {
        let req = transformer.transform_record(&ok_recs[i]);
        proof {
            assert(rows[i as int] == ok_recs@[i as int].deep_view());
        }
        requests.push(req);
        proof {
            assert(results_view(requests@) =~= transforms_upto(
                parsed_headers(p),
                rows,
                i as int + 1,
            ));
        }
        i = i + 1;
    }
    let ghost reqs = results_view(requests@);
    proof {
        assert(reqs == transforms(parsed_headers(p), rows));
    }
    store.deactivate_all();
    proof {
        assert(store@ =~= deact_all(s0));
    }
    let ghost rc = recon(deact_all(s0), reqs, semester_id, force_update);
    let outcome = run_reconciliation(store, &requests, semester_id, force_update);
    let activated: usize;
    if outcome.ids.len() > 0 {
        store.activate_many(&outcome.ids);
        proof {
            assert(store@ =~= activate_seq(rc.store, rc.ids));
        }
        activated = store.count_active();
    } else {
        activated = 0;
        proof {
            assert forall|j: int| 0 <= j < rc.store.len() implies activate_seq(rc.store, rc.ids)[j]
                == rc.store[j] by {
            }
            assert(store@ =~= activate_seq(rc.store, rc.ids));
        }
    }
    let total_after = store.count_total();
    proof {
        lemma_active_upto_le(store@, store@.len() as int);
    }
    let deactivated_count = total_after - activated;
    let existing_count = outcome.existing.len();
    let new_count = requests.len() - existing_count;
    let response = CsvImportResponse {
        validation_result: vres,
        total_processed: requests.len(),
        successful_imports: outcome.successful,
        failed_imports: outcome.failed,
        error_details: outcome.errors,
        existing_account_info: Some(
            ExistingAccountInfo {
                existing_accounts: outcome.existing,
                new_accounts_count: new_count,
                existing_accounts_count: existing_count,
            },
        ),
        account_status_counts: Some(
            AccountStatusCounts {
                total_accounts: total_after,
                activated_accounts: activated,
                deactivated_accounts: deactivated_count,
            },
        ),
    };
    Ok(response)
}

/// Serializable rendering of one validation finding, with the kind spelled
/// as text for the caller-facing boundary.
#[derive(Debug)]
pub struct ValidationErrorDetails {
    pub row_number: usize,
    pub field: Option<String>,
    pub error_type: String,
    pub error_message: String,
}

/// Mathematical model of a rendered finding.
#[verifier::ext_equal]
pub ghost struct SpecErrorDetails {
    pub row: int,
    pub field: Option<Seq<char>>,
    pub error_type: Seq<char>,
    pub message: Seq<char>,
}

impl View for ValidationErrorDetails {
    type V = SpecErrorDetails;

    open spec fn view(&self) -> SpecErrorDetails {
        SpecErrorDetails {
            row: self.row_number as int,
            field: self.field.deep_view(),
            error_type: self.error_type@,
            message: self.error_message@,
        }
    }
}

/// The text name of each finding kind.
pub open spec fn kind_name(k: ValidationErrorType) -> Seq<char> {
    match k {
        ValidationErrorType::FileSize => "FileSize"@,
        ValidationErrorType::FileType => "FileType"@,
        ValidationErrorType::Encoding => "Encoding"@,
        ValidationErrorType::HeaderMissing => "HeaderMissing"@,
        ValidationErrorType::DataIntegrity => "DataIntegrity"@,
        ValidationErrorType::TypeMismatch => "TypeMismatch"@,
    }
}

fn kind_name_exec(k: ValidationErrorType) -> (r: String)
    ensures
        r@ == kind_name(k),
{
    match k {
        ValidationErrorType::FileSize => "FileSize".to_owned(),
        ValidationErrorType::FileType => "FileType".to_owned(),
        ValidationErrorType::Encoding => "Encoding".to_owned(),
        ValidationErrorType::HeaderMissing => "HeaderMissing".to_owned(),
        ValidationErrorType::DataIntegrity => "DataIntegrity".to_owned(),
        ValidationErrorType::TypeMismatch => "TypeMismatch".to_owned(),
    }
}

/// The rendered form of one finding.
pub open spec fn details_of(e: SpecError) -> SpecErrorDetails {
    SpecErrorDetails { row: e.row, field: e.field, error_type: kind_name(e.kind), message: e.message }
}

/// Validates a file and renders any findings for the caller-facing boundary:
/// the result on a valid file, the complete rendered finding list otherwise.
pub fn validate_csv_file(file_name: &str, content: &[u8]) -> (r: Result<
    CsvValidationResult,
    Vec<ValidationErrorDetails>,
>)
    ensures
        ({
            let p = csv_parse(content@);
            let sv = validation_spec(
                file_name@,
                content@.len() as int,
                vstd::utf8::valid_utf8(content@),
                p.0 is Some,
                parsed_headers(p),
                p.1,
            );
            match r {
                Ok(v) => sv.is_valid && v@ == sv,
                Err(ds) => !sv.is_valid && ds@.map_values(|d: ValidationErrorDetails| d@)
                    == sv.errors.map_values(|e: SpecError| details_of(e)),
            }
        }),
{
    let validator = CsvValidator::new();
    match validator.validate_file(file_name, content) {
        Ok(v) => Ok(v),
        Err(es) => {
            let ghost evs = errs_view(es@);
            let mut details: Vec<ValidationErrorDetails> = Vec::new();
            let mut i: usize = 0;
            while i < es.len()
                invariant
                    evs == errs_view(es@),
                    evs.len() == es@.len(),
                    0 <= i <= es@.len(),
                    details@.len() == i,
                    forall|j: int| 0 <= j < i ==> #[trigger] details@[j]@ == details_of(evs[j]),
                decreases es@.len() - i,
            {
                let e = &es[i];
                let field = clone_opt_string(&e.field);
                let d = ValidationErrorDetails {
                    row_number: e.row_number,
                    field,
                    error_type: kind_name_exec(e.error_type),
                    error_message: e.error_message.clone(),
                };
                proof {
                    assert(evs[i as int] == es@[i as int]@);
                    assert(d@ == details_of(evs[i as int]));
                }
                details.push(d);
                i = i + 1;
            }
            proof {
                assert(details@.map_values(|d: ValidationErrorDetails| d@) =~= evs.map_values(
                    |e2: SpecError| details_of(e2),
                ));
            }
            Err(details)
        },
    }
}

/// The existing-versus-new split the scan of one file reports: the store
/// accounts the transformed rows matched, in scan order, and how many rows
/// matched nothing.
pub open spec fn existing_scan_upto(
    s: Seq<SpecAccount>,
    reqs: Seq<Result<SpecRequest, SpecTransformError>>,
    k: int,
) -> (Seq<SpecAccount>, int)
    decreases k,
{
    if k <= 0 {
        (Seq::empty(), 0int)
    } else {
        let prev = existing_scan_upto(s, reqs, k - 1);
        match reqs[k - 1] {
            Ok(r) => {
                if idx_of(s, r.school_id) >= 0 {
                    (prev.0.push(s[idx_of(s, r.school_id)]), prev.1)
                } else {
                    (prev.0, prev.1 + 1)
                }
            },
            Err(_) => prev,
        }
    }
}

pub open spec fn existing_scan(
    s: Seq<SpecAccount>,
    reqs: Seq<Result<SpecRequest, SpecTransformError>>,
) -> (Seq<SpecAccount>, int) {
    existing_scan_upto(s, reqs, reqs.len() as int)
}

/// Scans the rows of a file against the store without changing anything:
/// which transformed rows match an existing account (those accounts, in
/// order) and how many would create a new one. Rows that fail to transform
/// are skipped.
pub fn check_existing_accounts(
    store: &AccountStore,
    headers: &Vec<String>,
    records: &Vec<Vec<String>>,
) -> (r: ExistingAccountInfo)
    ensures
        ({
            let sc = existing_scan(store@, transforms(headers.deep_view(), records.deep_view()));
            &&& accounts_view(r.existing_accounts@) == sc.0
            &&& r.new_accounts_count == sc.1
            &&& r.existing_accounts_count == sc.0.len()
        }),
{
    let ghost hs = headers.deep_view();
    let ghost recs = records.deep_view();
    let transformer = CsvTransformer::new(headers);
    let mut existing: Vec<SchoolAccount> = Vec::new();
    let mut new_count: usize = 0;
    let mut i: usize = 0;
    while i < records.len()
        invariant
            transformer.wf(),
            transformer.spec_headers() == hs,
            hs == headers.deep_view(),
            recs == records.deep_view(),
            recs.len() == records@.len(),
            0 <= i <= records@.len(),
            new_count <= i,
            ({
                let sc = existing_scan_upto(store@, transforms_upto(hs, recs, i as int), i as int);
                &&& accounts_view(existing@) == sc.0
                &&& new_count == sc.1
            }),
        decreases records@.len() - i,
    {
        let ghost sc = existing_scan_upto(store@, transforms_upto(hs, recs, i as int), i as int);
        let ghost reqs1 = transforms_upto(hs, recs, i as int + 1);
        proof {
            assert(recs[i as int] == records@[i as int].deep_view());
            lemma_transforms_upto_len(hs, recs, i as int);
            lemma_transforms_upto_len(hs, recs, i as int + 1);
            assert(reqs1[i as int] == transform_spec_at(hs, recs, i as int));
            lemma_existing_scan_prefix(
                store@,
                transforms_upto(hs, recs, i as int),
                reqs1,
                i as int,
            );
        }
        match transformer.transform_record(&records[i]) {
            Ok(req) => {
                match store.find_by_school_id(req.school_id.as_str()) {
                    Some(a) => {
                        existing.push(a);
                        proof {
                            assert(accounts_view(existing@) =~= existing_scan_upto(
                                store@,
                                reqs1,
                                i as int + 1,
                            ).0);
                        }
                    },
                    None => {
                        new_count = new_count + 1;
                    },
                }
            },
            Err(_) => {},
        }
        i = i + 1;
    }
    proof {
        lemma_transforms_upto_len(hs, recs, recs.len() as int);
        lemma_existing_scan_prefix(
            store@,
            transforms_upto(hs, recs, recs.len() as int),
            transforms(hs, recs),
            recs.len() as int,
        );
    }
    let existing_count = existing.len();
    ExistingAccountInfo {
        existing_accounts: existing,
        new_accounts_count: new_count,
        existing_accounts_count: existing_count,
    }
}

/// The result of one row's transform, as `transforms_upto` records it.
pub open spec fn transform_spec_at(hs: Seq<Seq<char>>, recs: Seq<Seq<Seq<char>>>, i: int) -> Result<
    SpecRequest,
    SpecTransformError,
> {
    crate::transform::transform_spec(hs, recs[i])
}

/// The keys of the first `k` transform results that succeeded, in order:
/// the activation list one reconciliation pass collects.
pub open spec fn ok_ids_upto(
    reqs: Seq<Result<SpecRequest, SpecTransformError>>,
    k: int,
) -> Seq<Seq<char>>
    decreases k,
{
    if k <= 0 {
        Seq::empty()
    } else {
        ok_ids_upto(reqs, k - 1) + (match reqs[k - 1] {
            Ok(r) => seq![r.school_id],
            Err(_) => Seq::empty(),
        })
    }
}

/// The keys of the transform results that succeeded, in order.
pub open spec fn ok_ids(reqs: Seq<Result<SpecRequest, SpecTransformError>>) -> Seq<Seq<char>> {
    ok_ids_upto(reqs, reqs.len() as int)
}

/// No two elements are equal.
pub open spec fn distinct_ids(ids: Seq<Seq<char>>) -> bool {
    forall|i: int, j: int| 0 <= i < j < ids.len() ==> ids[i] != ids[j]
}

/// A reconciliation pass collects exactly the keys of the rows that
/// transformed, in file order, and tallies every row once.
proof fn lemma_recon_basic(
    s0: Seq<SpecAccount>,
    reqs: Seq<Result<SpecRequest, SpecTransformError>>,
    sem: uuid::Uuid,
    force: bool,
    k: int,
)
    requires
        0 <= k,
    ensures
        ({
            let st = recon_upto(s0, reqs, sem, force, k);
            &&& st.ids == ok_ids_upto(reqs, k)
            &&& st.successful + st.failed == k
            &&& st.successful >= 0
            &&& st.failed >= 0
        }),
    decreases k,
{
    if k > 0 {
        lemma_recon_basic(s0, reqs, sem, force, k - 1);
        let st0 = recon_upto(s0, reqs, sem, force, k - 1);
        match reqs[k - 1] {
            Ok(r) => {
                assert(st0.ids.push(stamp(r, sem).school_id) =~= ok_ids_upto(reqs, k));
            },
            Err(_) => {
                assert(st0.ids =~= ok_ids_upto(reqs, k));
            },
        }
    } else {
        assert(recon_upto(s0, reqs, sem, force, k).ids =~= ok_ids_upto(reqs, k));
    }
}

/// Through a reconciliation pass that started with every account inactive,
/// an account is active only when its key is on the activation list.
proof fn lemma_recon_active(
    s0: Seq<SpecAccount>,
    reqs: Seq<Result<SpecRequest, SpecTransformError>>,
    sem: uuid::Uuid,
    force: bool,
    k: int,
)
    requires
        0 <= k,
        forall|i: int| 0 <= i < s0.len() ==> !(#[trigger] s0[i].is_active),
    ensures
        ({
            let st = recon_upto(s0, reqs, sem, force, k);
            forall|i: int|
                0 <= i < st.store.len() ==> (#[trigger] st.store[i].is_active ==> contains_str(
                    st.ids,
                    st.store[i].school_id,
                ))
        }),
    decreases k,
{
    if k > 0 {
        lemma_recon_active(s0, reqs, sem, force, k - 1);
        let st0 = recon_upto(s0, reqs, sem, force, k - 1);
        let st = recon_upto(s0, reqs, sem, force, k);
        match reqs[k - 1] {
            Ok(r0) => {
                let r = stamp(r0, sem);
                let idx0 = idx_of(st0.store, r.school_id);
                lemma_idx_of_props(st0.store, r.school_id);
                assert forall|i: int|
                    0 <= i < st.store.len() && #[trigger] st.store[i].is_active implies contains_str(
                    st.ids,
                    st.store[i].school_id,
                ) by {
                    if idx0 >= 0 && force && i == idx0 {
                        assert(st.store[i] == updated_account(st0.store[idx0], r));
                        if st0.store[idx0].is_active {
                            assert(contains_str(st0.ids, st0.store[idx0].school_id));
                            let w = choose|w: int|
                                0 <= w < st0.ids.len() && st0.ids[w] == st0.store[idx0].school_id;
                            assert(st.ids[w] == st.store[i].school_id);
                        }
                    } else if idx0 < 0 && i == st0.store.len() {
                        assert(st.store[i] == account_of(r));
                        assert(st.ids[st.ids.len() - 1] == st.store[i].school_id);
                    } else {
                        assert(st.store[i] == st0.store[i]);
                        if st0.store[i].is_active {
                            assert(contains_str(st0.ids, st0.store[i].school_id));
                            let w = choose|w: int|
                                0 <= w < st0.ids.len() && st0.ids[w] == st0.store[i].school_id;
                            assert(st.ids[w] == st.store[i].school_id);
                        }
                    }
                }
            },
            Err(_) => {},
        }
    }
}

/// Whether some account of `s` carries the key `id`.
pub open spec fn store_has(s: Seq<SpecAccount>, id: Seq<char>) -> bool {
    exists|i: int| 0 <= i < s.len() && #[trigger] s[i].school_id == id
}

/// Whether some active account of `s` carries the key `id`.
pub open spec fn store_has_active(s: Seq<SpecAccount>, id: Seq<char>) -> bool {
    exists|i: int| 0 <= i < s.len() && #[trigger] s[i].school_id == id && s[i].is_active
}

/// Every key on the activation list names an account in the store that the
/// pass leaves behind.
proof fn lemma_recon_ids_have_keys(
    s0: Seq<SpecAccount>,
    reqs: Seq<Result<SpecRequest, SpecTransformError>>,
    sem: uuid::Uuid,
    force: bool,
    k: int,
)
    requires
        0 <= k,
    ensures
        ({
            let st = recon_upto(s0, reqs, sem, force, k);
            forall|j: int| 0 <= j < st.ids.len() ==> store_has(st.store, #[trigger] st.ids[j])
        }),
    decreases k,
{
    if k > 0 {
        lemma_recon_ids_have_keys(s0, reqs, sem, force, k - 1);
        let st0 = recon_upto(s0, reqs, sem, force, k - 1);
        let st = recon_upto(s0, reqs, sem, force, k);
        match reqs[k - 1] {
            Ok(r0) => {
                let r = stamp(r0, sem);
                lemma_idx_of_props(st0.store, r.school_id);
                assert forall|j: int| 0 <= j < st.ids.len() implies store_has(
                    st.store,
                    #[trigger] st.ids[j],
                ) by {
                    let idx0 = idx_of(st0.store, r.school_id);
                    if j < st0.ids.len() {
                        assert(st.ids[j] == st0.ids[j]);
                        assert(store_has(st0.store, st0.ids[j]));
                        let w = choose|i: int|
                            0 <= i < st0.store.len() && #[trigger] st0.store[i].school_id
                                == st0.ids[j];
                        if idx0 >= 0 && force && w == idx0 {
                            assert(st.store[w] == updated_account(st0.store[idx0], r));
                        } else {
                            assert(st.store[w] == st0.store[w]);
                        }
                        assert(0 <= w < st.store.len() && st.store[w].school_id == st.ids[j]);
                    } else {
                        assert(st.ids[j] == r.school_id);
                        if idx0 >= 0 {
                            if force {
                                assert(st.store[idx0] == updated_account(st0.store[idx0], r));
                            }
                            assert(0 <= idx0 < st.store.len() && st.store[idx0].school_id
                                == st.ids[j]);
                        } else {
                            let w = st.store.len() - 1;
                            assert(st.store[w] == account_of(r));
                            assert(0 <= w < st.store.len() && st.store[w].school_id == st.ids[j]);
                        }
                    }
                }
            },
            Err(_) => {
                assert forall|j: int| 0 <= j < st.ids.len() implies store_has(
                    st.store,
                    #[trigger] st.ids[j],
                ) by {
                    assert(st.ids[j] == st0.ids[j]);
                    assert(store_has(st0.store, st0.ids[j]));
                    let w = choose|i: int|
                        0 <= i < st0.store.len() && #[trigger] st0.store[i].school_id
                            == st0.ids[j];
                    assert(0 <= w < st.store.len() && st.store[w].school_id == st.ids[j]);
                }
            },
        }
    } else {
        assert(recon_upto(s0, reqs, sem, force, k).ids.len() == 0);
    }
}

/// Reconciliation invariant: after an import run, an account is active
/// exactly when its external identifier was named by a transformed row of
/// the file, and every such identifier names an active account.
pub proof fn lemma_reconciliation_invariant(
    s0: Seq<SpecAccount>,
    reqs: Seq<Result<SpecRequest, SpecTransformError>>,
    sem: uuid::Uuid,
    force: bool,
)
    ensures
        ({
            let rc = recon(deact_all(s0), reqs, sem, force);
            let fin = activate_seq(rc.store, rc.ids);
            &&& fin.len() == rc.store.len()
            &&& rc.ids == ok_ids(reqs)
            &&& forall|i: int|
                0 <= i < fin.len() ==> (#[trigger] fin[i].is_active <==> contains_str(
                    rc.ids,
                    fin[i].school_id,
                ))
            &&& forall|j: int| 0 <= j < rc.ids.len() ==> store_has_active(fin, #[trigger] rc.ids[j])
        }),
{
    let d = deact_all(s0);
    let n = reqs.len() as int;
    assert forall|i: int| 0 <= i < d.len() implies !(#[trigger] d[i].is_active) by {
        assert(d[i] == deactivated(s0[i]));
    }
    lemma_recon_basic(d, reqs, sem, force, n);
    lemma_recon_active(d, reqs, sem, force, n);
    lemma_recon_ids_have_keys(d, reqs, sem, force, n);
    let rc = recon(d, reqs, sem, force);
    let fin = activate_seq(rc.store, rc.ids);
    assert forall|i: int| 0 <= i < fin.len() implies (#[trigger] fin[i].is_active
        <==> contains_str(rc.ids, fin[i].school_id)) by {
        assert(fin[i] == with_active(
            rc.store[i],
            rc.store[i].is_active || contains_str(rc.ids, rc.store[i].school_id),
        ));
        if rc.store[i].is_active {
            assert(contains_str(rc.ids, rc.store[i].school_id));
        }
    }
    assert forall|j: int| 0 <= j < rc.ids.len() implies store_has_active(
        fin,
        #[trigger] rc.ids[j],
    ) by {
        assert(store_has(rc.store, rc.ids[j]));
        let w = choose|i: int|
            0 <= i < rc.store.len() && #[trigger] rc.store[i].school_id == rc.ids[j];
        assert(contains_str(rc.ids, rc.store[w].school_id)) by {
            assert(rc.ids[j] == rc.store[w].school_id);
        }
        assert(fin[w] == with_active(
            rc.store[w],
            rc.store[w].is_active || contains_str(rc.ids, rc.store[w].school_id),
        ));
        assert(0 <= w < fin.len() && fin[w].school_id == rc.ids[j] && fin[w].is_active);
    }
}

/// Round trip into an empty store: a pass over an empty store creates one
/// account per row that transformed (their keys being distinct), succeeds on
/// exactly those rows, and fails on exactly the rows that did not transform.
proof fn lemma_empty_recon_upto(
    reqs: Seq<Result<SpecRequest, SpecTransformError>>,
    sem: uuid::Uuid,
    force: bool,
    k: int,
)
    requires
        0 <= k,
        distinct_ids(ok_ids_upto(reqs, k)),
    ensures
        ({
            let st = recon_upto(Seq::empty(), reqs, sem, force, k);
            &&& st.successful == ok_ids_upto(reqs, k).len()
            &&& st.failed == k - ok_ids_upto(reqs, k).len()
            &&& st.store.len() == ok_ids_upto(reqs, k).len()
            &&& forall|id: Seq<char>|
                has_key(st.store, id) <==> contains_str(ok_ids_upto(reqs, k), id)
        }),
    decreases k,
{
    if k > 0 {
        let ids0 = ok_ids_upto(reqs, k - 1);
        let ids1 = ok_ids_upto(reqs, k);
        assert(distinct_ids(ids0)) by {
            assert forall|i: int, j: int| 0 <= i < j < ids0.len() implies ids0[i] != ids0[j] by {
                assert(ids1[i] == ids0[i] && ids1[j] == ids0[j]);
            }
        }
        lemma_empty_recon_upto(reqs, sem, force, k - 1);
        let st0 = recon_upto(Seq::empty(), reqs, sem, force, k - 1);
        let st = recon_upto(Seq::empty(), reqs, sem, force, k);
        match reqs[k - 1] {
            Ok(r0) => {
                let r = stamp(r0, sem);
                assert(ids1 == ids0.push(r.school_id));
                assert(!contains_str(ids0, r.school_id)) by {
                    if contains_str(ids0, r.school_id) {
                        let w = choose|w: int| 0 <= w < ids0.len() && ids0[w] == r.school_id;
                        assert(ids1[w] == ids1[ids1.len() - 1]);
                    }
                }
                assert(!has_key(st0.store, r.school_id));
                lemma_idx_of_props(st0.store, r.school_id);
                assert(st.store == st0.store.push(account_of(r)));
                assert forall|id: Seq<char>|
                    has_key(st.store, id) <==> contains_str(ids1, id) by {
                    lemma_has_key_iff(st.store, id);
                    lemma_has_key_iff(st0.store, id);
                    if contains_str(ids1, id) {
                        let w = choose|w: int| 0 <= w < ids1.len() && ids1[w] == id;
                        if w < ids0.len() {
                            assert(contains_str(ids0, id)) by {
                                assert(ids0[w] == id);
                            }
                            let v = choose|v: int|
                                0 <= v < st0.store.len() && #[trigger] st0.store[v].school_id == id;
                            assert(st.store[v].school_id == id);
                        } else {
                            assert(st.store[st.store.len() - 1].school_id == id);
                        }
                    }
                    if has_key(st.store, id) {
                        let v = choose|v: int|
                            0 <= v < st.store.len() && #[trigger] st.store[v].school_id == id;
                        if v < st0.store.len() {
                            assert(st0.store[v].school_id == id);
                            let w = choose|w: int| 0 <= w < ids0.len() && ids0[w] == id;
                            assert(ids1[w] == id);
                        } else {
                            assert(ids1[ids1.len() - 1] == id);
                        }
                    }
                }
            },
            Err(_) => {
                assert(ids1 =~= ids0);
            },
        }
    }
}

/// Round trip: importing against an empty store creates one account per row
/// that transformed (their keys being distinct); every such row succeeds and
/// every other row fails.
pub proof fn lemma_import_into_empty_store(
    reqs: Seq<Result<SpecRequest, SpecTransformError>>,
    sem: uuid::Uuid,
    force: bool,
)
    requires
        distinct_ids(ok_ids(reqs)),
    ensures
        ({
            let rc = recon(deact_all(Seq::<SpecAccount>::empty()), reqs, sem, force);
            &&& rc.successful == ok_ids(reqs).len()
            &&& rc.failed == reqs.len() - ok_ids(reqs).len()
            &&& rc.store.len() == ok_ids(reqs).len()
        }),
{
    assert(deact_all(Seq::<SpecAccount>::empty()) =~= Seq::<SpecAccount>::empty());
    lemma_empty_recon_upto(reqs, sem, force, reqs.len() as int);
}

/// With `force_update` off and every key already present, a pass never
/// touches the store and fails every row.
proof fn lemma_reimport_upto(
    d: Seq<SpecAccount>,
    reqs: Seq<Result<SpecRequest, SpecTransformError>>,
    sem: uuid::Uuid,
    k: int,
)
    requires
        0 <= k,
        forall|id: Seq<char>| contains_str(ok_ids_upto(reqs, k), id) ==> has_key(d, id),
    ensures
        ({
            let st = recon_upto(d, reqs, sem, false, k);
            &&& st.store == d
            &&& st.successful == 0
            &&& st.failed == k
            &&& st.ids == ok_ids_upto(reqs, k)
        }),
    decreases k,
{
    lemma_recon_basic(d, reqs, sem, false, k);
    if k > 0 {
        let ids0 = ok_ids_upto(reqs, k - 1);
        let ids1 = ok_ids_upto(reqs, k);
        assert(forall|id: Seq<char>| contains_str(ids0, id) ==> contains_str(ids1, id)) by {
            assert forall|id: Seq<char>| contains_str(ids0, id) implies contains_str(ids1, id) by {
                let w = choose|w: int| 0 <= w < ids0.len() && ids0[w] == id;
                assert(ids1[w] == id);
            }
        }
        lemma_reimport_upto(d, reqs, sem, k - 1);
        let st0 = recon_upto(d, reqs, sem, false, k - 1);
        match reqs[k - 1] {
            Ok(r0) => {
                let r = stamp(r0, sem);
                assert(contains_str(ids1, r.school_id)) by {
                    assert(ids1[ids1.len() - 1] == r.school_id);
                }
                assert(has_key(d, r.school_id));
            },
            Err(_) => {},
        }
    }
}

/// Re-importing a file whose keys are all present, with `force_update` off:
/// every row fails with an already-exists outcome, none succeeds, and the
/// store comes out exactly as it went in.
pub proof fn lemma_reimport_identical_file(
    s0: Seq<SpecAccount>,
    reqs: Seq<Result<SpecRequest, SpecTransformError>>,
    sem: uuid::Uuid,
)
    requires
        forall|id: Seq<char>| contains_str(ok_ids(reqs), id) ==> has_key(s0, id),
        forall|i: int|
            0 <= i < s0.len() ==> (#[trigger] s0[i].is_active <==> contains_str(
                ok_ids(reqs),
                s0[i].school_id,
            )),
    ensures
        ({
            let rc = recon(deact_all(s0), reqs, sem, false);
            &&& activate_seq(rc.store, rc.ids) == s0
            &&& rc.successful == 0
            &&& rc.failed == reqs.len()
        }),
{
    let d = deact_all(s0);
    let n = reqs.len() as int;
    assert forall|id: Seq<char>| contains_str(ok_ids_upto(reqs, n), id) implies has_key(
        d,
        id,
    ) by {
        lemma_has_key_iff(s0, id);
        lemma_has_key_iff(d, id);
        let w = choose|w: int| 0 <= w < s0.len() && #[trigger] s0[w].school_id == id;
        assert(d[w].school_id == id);
    }
    lemma_reimport_upto(d, reqs, sem, n);
    let rc = recon(d, reqs, sem, false);
    assert(activate_seq(rc.store, rc.ids) =~= s0) by {
        assert forall|i: int| 0 <= i < s0.len() implies activate_seq(rc.store, rc.ids)[i]
            == s0[i] by {
            assert(rc.store[i] == deactivated(s0[i]));
            assert(activate_seq(rc.store, rc.ids)[i] == with_active(
                deactivated(s0[i]),
                contains_str(ok_ids(reqs), s0[i].school_id),
            ));
        }
    }
}

/// `existing_scan_upto` looks only at the first `k` results, so two request
/// lists that agree there scan alike.
proof fn lemma_existing_scan_prefix(
    s: Seq<SpecAccount>,
    a: Seq<Result<SpecRequest, SpecTransformError>>,
    b: Seq<Result<SpecRequest, SpecTransformError>>,
    k: int,
)
    requires
        0 <= k <= a.len(),
        k <= b.len(),
        forall|j: int| 0 <= j < k ==> a[j] == b[j],
    ensures
        existing_scan_upto(s, a, k) == existing_scan_upto(s, b, k),
    decreases k,
{
    if k > 0 {
        lemma_existing_scan_prefix(s, a, b, k - 1);
    }
}

} // verus!
