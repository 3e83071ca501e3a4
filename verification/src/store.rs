//! The account store: a table of school accounts keyed by the external
//! identifier, with the lookup, create, update and bulk-activation
//! primitives the reconciler drives. The store's invariant is that no two
//! accounts share an external identifier.
use vstd::prelude::*;

use crate::chars::{
    contains_str, contains_string, field_at, find_header, find_ic, str_eq, trim_str, trimmed,
    value_at,
};
use crate::transform::{CreateSchoolAccountRequest, SpecRequest};
use crate::validation::CsvValidator;

verus! {

/// One stored account: the external key, the name fields the roster carries,
/// the active flag the reconciliation sweeps manage, and the semester that
/// last updated it.
#[derive(Debug)]
pub struct SchoolAccount {
    pub school_id: String,
    pub first_name: String,
    pub middle_name: String,
    pub last_name: String,
    pub is_active: bool,
    pub last_updated_semester_id: Option<uuid::Uuid>,
}

/// Mathematical model of a stored account.
#[verifier::ext_equal]
pub ghost struct SpecAccount {
    pub school_id: Seq<char>,
    pub first_name: Seq<char>,
    pub middle_name: Seq<char>,
    pub last_name: Seq<char>,
    pub is_active: bool,
    pub last_updated_semester_id: Option<uuid::Uuid>,
}

impl View for SchoolAccount {
    type V = SpecAccount;

    open spec fn view(&self) -> SpecAccount {
        SpecAccount {
            school_id: self.school_id@,
            first_name: self.first_name@,
            middle_name: self.middle_name@,
            last_name: self.last_name@,
            is_active: self.is_active,
            last_updated_semester_id: self.last_updated_semester_id,
        }
    }
}

impl DeepView for SchoolAccount {
    type V = SpecAccount;

    open spec fn deep_view(&self) -> SpecAccount {
        self.view()
    }
}

/// Index of the first account whose key is `key`, scanning from `i`; `-1`
/// when there is none.
pub open spec fn idx_from(s: Seq<SpecAccount>, key: Seq<char>, i: int) -> int
    decreases s.len() - i,
{
    if i < 0 || i >= s.len() {
        -1
    } else if s[i].school_id == key {
        i
    } else {
        idx_from(s, key, i + 1)
    }
}

/// Index of the first account keyed by `key`, or `-1`.
pub open spec fn idx_of(s: Seq<SpecAccount>, key: Seq<char>) -> int {
    idx_from(s, key, 0)
}

/// Whether some account is keyed by `key`.
pub open spec fn has_key(s: Seq<SpecAccount>, key: Seq<char>) -> bool {
    idx_of(s, key) >= 0
}

/// No two accounts share an external identifier.
pub open spec fn unique_keys(s: Seq<SpecAccount>) -> bool {
    forall|i: int, j: int|
        0 <= i < j < s.len() ==> #[trigger] s[i].school_id != #[trigger] s[j].school_id
}

proof fn lemma_idx_from_props(s: Seq<SpecAccount>, key: Seq<char>, i: int)
    requires
        0 <= i <= s.len(),
    ensures
        idx_from(s, key, i) < 0 ==> forall|j: int|
            i <= j < s.len() ==> #[trigger] s[j].school_id != key,
        idx_from(s, key, i) >= 0 ==> i <= idx_from(s, key, i) < s.len() && s[idx_from(
            s,
            key,
            i,
        )].school_id == key,
    decreases s.len() - i,
{
    if i < s.len() && !(s[i].school_id == key) {
        lemma_idx_from_props(s, key, i + 1);
    }
}

/// `idx_of` finds a key exactly when some account carries it.
pub proof fn lemma_idx_of_props(s: Seq<SpecAccount>, key: Seq<char>)
    ensures
        idx_of(s, key) < 0 ==> forall|j: int|
            0 <= j < s.len() ==> #[trigger] s[j].school_id != key,
        idx_of(s, key) >= 0 ==> 0 <= idx_of(s, key) < s.len() && s[idx_of(s, key)].school_id
            == key,
{
    lemma_idx_from_props(s, key, 0);
}

/// How many of the first `k` accounts are active.
pub open spec fn active_upto(s: Seq<SpecAccount>, k: int) -> int
    decreases k,
{
    if k <= 0 {
        0
    } else {
        active_upto(s, k - 1) + (if s[k - 1].is_active {
            1int
        } else {
            0int
        })
    }
}

/// How many accounts are active.
pub open spec fn active_count(s: Seq<SpecAccount>) -> int {
    active_upto(s, s.len() as int)
}

/// A key is found exactly when some account carries it.
pub proof fn lemma_has_key_iff(s: Seq<SpecAccount>, key: Seq<char>)
    ensures
        has_key(s, key) <==> exists|j: int| 0 <= j < s.len() && #[trigger] s[j].school_id == key,
{
    lemma_idx_of_props(s, key);
    if idx_of(s, key) >= 0 {
        let w = idx_of(s, key);
        assert(0 <= w < s.len() && s[w].school_id == key);
    } else {
        assert(!(exists|j: int| 0 <= j < s.len() && #[trigger] s[j].school_id == key)) by {
            if exists|j: int| 0 <= j < s.len() && #[trigger] s[j].school_id == key {
                let w = choose|j: int| 0 <= j < s.len() && #[trigger] s[j].school_id == key;
                assert(s[w].school_id != key);
            }
        }
    }
}

/// At most `k` of the first `k` accounts are active.
pub proof fn lemma_active_upto_le(s: Seq<SpecAccount>, k: int)
    requires
        0 <= k,
    ensures
        0 <= active_upto(s, k) <= k,
    decreases k,
{
    if k > 0 {
        lemma_active_upto_le(s, k - 1);
    }
}

/// The same account, inactive.
pub open spec fn deactivated(a: SpecAccount) -> SpecAccount {
    SpecAccount {
        school_id: a.school_id,
        first_name: a.first_name,
        middle_name: a.middle_name,
        last_name: a.last_name,
        is_active: false,
        last_updated_semester_id: a.last_updated_semester_id,
    }
}

/// The same account, with the given active flag.
pub open spec fn with_active(a: SpecAccount, active: bool) -> SpecAccount {
    SpecAccount {
        school_id: a.school_id,
        first_name: a.first_name,
        middle_name: a.middle_name,
        last_name: a.last_name,
        is_active: active,
        last_updated_semester_id: a.last_updated_semester_id,
    }
}

/// The account a creation request asks for: its key, names and semester
/// reference, active when the request says so (inactive by default).
pub open spec fn account_of(r: SpecRequest) -> SpecAccount {
    SpecAccount {
        school_id: r.school_id,
        first_name: r.first_name,
        middle_name: r.middle_name,
        last_name: r.last_name,
        is_active: (r.is_active matches Some(true)),
        last_updated_semester_id: r.last_updated_semester_id,
    }
}

/// An existing account after an update: the key it is stored under and its
/// active flag are kept (the sweeps manage activation); the name fields and
/// the semester reference come from the request.
pub open spec fn updated_account(a: SpecAccount, r: SpecRequest) -> SpecAccount {
    SpecAccount {
        school_id: a.school_id,
        first_name: r.first_name,
        middle_name: r.middle_name,
        last_name: r.last_name,
        is_active: a.is_active,
        last_updated_semester_id: r.last_updated_semester_id,
    }
}

fn clone_account(a: &SchoolAccount) -> (r: SchoolAccount)
    ensures
        r == a,
{
    SchoolAccount {
        school_id: a.school_id.clone(),
        first_name: a.first_name.clone(),
        middle_name: a.middle_name.clone(),
        last_name: a.last_name.clone(),
        is_active: a.is_active,
        last_updated_semester_id: match &a.last_updated_semester_id {
            Some(u) => Some(*u),
            None => None,
        },
    }
}

/// The keyed account table.
pub struct AccountStore {
    accounts: Vec<SchoolAccount>,
}

impl View for AccountStore {
    type V = Seq<SpecAccount>;

    closed spec fn view(&self) -> Seq<SpecAccount> {
        self.accounts.deep_view()
    }
}

impl AccountStore {
    /// The store's invariant: external identifiers are unique.
    pub open spec fn wf(&self) -> bool {
        unique_keys(self@)
    }

    pub fn new() -> (s: Self)
        ensures
            s@ == Seq::<SpecAccount>::empty(),
            s.wf(),
    {
        let s = AccountStore { accounts: Vec::new() };
        proof {
            assert(s@ =~= Seq::<SpecAccount>::empty());
        }
        s
    }

    pub fn count_total(&self) -> (n: usize)
        ensures
            n == self@.len(),
    {
        self.accounts.len()
    }

    pub fn count_active(&self) -> (n: usize)
        ensures
            n == active_count(self@),
    {
        let mut n: usize = 0;
        let mut i: usize = 0;
        while i < self.accounts.len()
            invariant
                0 <= i <= self.accounts@.len(),
                self@.len() == self.accounts@.len(),
                n == active_upto(self@, i as int),
                n <= i,
            decreases self.accounts@.len() - i,
        {
            proof {
                assert(self@[i as int] == self.accounts@[i as int]@);
            }
            if self.accounts[i].is_active {
                n = n + 1;
            }
            i = i + 1;
        }
        n
    }

    /// Looks an account up by its external identifier; a copy of the first
    /// (and, by the invariant, only) account under that key.
    pub fn find_by_school_id(&self, id: &str) -> (r: Option<SchoolAccount>)
        ensures
            match r {
                Some(a) => idx_of(self@, id@) >= 0 && a@ == self@[idx_of(self@, id@)],
                None => idx_of(self@, id@) == -1,
            },
    {
        let mut i: usize = 0;
        while i < self.accounts.len()
            invariant
                0 <= i <= self.accounts@.len(),
                self@.len() == self.accounts@.len(),
                idx_of(self@, id@) == idx_from(self@, id@, i as int),
            decreases self.accounts@.len() - i,
        {
            proof {
                assert(self@[i as int] == self.accounts@[i as int]@);
            }
            if str_eq(self.accounts[i].school_id.as_str(), id) {
                return Some(clone_account(&self.accounts[i]));
            }
            i = i + 1;
        }
        None
    }

    /// Inserts the account a request asks for; the caller has checked that
    /// the key is not taken.
    pub fn create(&mut self, req: &CreateSchoolAccountRequest)
        requires
            old(self).wf(),
            idx_of(old(self)@, req.school_id@) == -1,
        ensures
            final(self)@ == old(self)@.push(account_of(req@)),
            final(self).wf(),
    {
        let account = SchoolAccount {
            school_id: req.school_id.clone(),
            first_name: req.first_name.clone(),
            middle_name: req.middle_name.clone(),
            last_name: req.last_name.clone(),
            is_active: match req.is_active {
                Some(b) => b,
                None => false,
            },
            last_updated_semester_id: match &req.last_updated_semester_id {
                Some(u) => Some(*u),
                None => None,
            },
        };
        proof {
            assert(account@ == account_of(req@));
        }
        let ghost s0 = self@;
        self.accounts.push(account);
        proof {
            assert(self@ =~= s0.push(account_of(req@)));
            lemma_idx_of_props(s0, req.school_id@);
            assert forall|i: int, j: int| 0 <= i < j < self@.len() implies #[trigger] self@[i].school_id
                != #[trigger] self@[j].school_id by {
                if j == s0.len() {
                    assert(self@[i] == s0[i]);
                }
            }
        }
    }

    /// Replaces the name fields and the semester reference of the account
    /// keyed by `id` with those of the request; reports whether the key was
    /// found. The key and the active flag are kept.
    pub fn update(&mut self, id: &str, req: &CreateSchoolAccountRequest) -> (r: bool)
        requires
            old(self).wf(),
        ensures
            r == (idx_of(old(self)@, id@) >= 0),
            r ==> final(self)@ == old(self)@.update(
                idx_of(old(self)@, id@),
                updated_account(old(self)@[idx_of(old(self)@, id@)], req@),
            ),
            !r ==> final(self)@ == old(self)@,
            final(self).wf(),
    {
        let ghost s0 = self@;
        match self.find_index(id) {
            None => false,
            Some(i) => {
                let mut out: Vec<SchoolAccount> = Vec::new();
                let mut j: usize = 0;
                while j < self.accounts.len()
                    invariant
                        s0 == self@,
                        (i as int) == idx_of(s0, id@),
                        0 <= i < self.accounts@.len(),
                        0 <= j <= self.accounts@.len(),
                        self@.len() == self.accounts@.len(),
                        out@.len() == j,
                        forall|p: int|
                            0 <= p < j ==> out@[p]@ == (if p == i as int {
                                updated_account(s0[p], req@)
                            } else {
                                s0[p]
                            }),
                    decreases self.accounts@.len() - j,
                {
                    proof {
                        assert(self@[j as int] == self.accounts@[j as int]@);
                    }
                    if j == i {
                        let a = clone_account(&self.accounts[j]);
                        out.push(
                            SchoolAccount {
                                school_id: a.school_id,
                                first_name: req.first_name.clone(),
                                middle_name: req.middle_name.clone(),
                                last_name: req.last_name.clone(),
                                is_active: a.is_active,
                                last_updated_semester_id: match &req.last_updated_semester_id {
                                    Some(u) => Some(*u),
                                    None => None,
                                },
                            },
                        );
                    } else {
                        out.push(clone_account(&self.accounts[j]));
                    }
                    j = j + 1;
                }
                self.accounts = out;
                proof {
                    assert(self@ =~= s0.update(i as int, updated_account(s0[i as int], req@)));
                    assert forall|p: int, q: int|
                        0 <= p < q < self@.len() implies #[trigger] self@[p].school_id
                        != #[trigger] self@[q].school_id by {
                        assert(self@[p].school_id == s0[p].school_id);
                        assert(self@[q].school_id == s0[q].school_id);
                    }
                }
                true
            },
        }
    }

    /// The position of the account keyed by `id`, when there is one.
    fn find_index(&self, id: &str) -> (r: Option<usize>)
        ensures
            match r {
                Some(i) => idx_of(self@, id@) == i as int && (i as int) < self@.len(),
                None => idx_of(self@, id@) == -1,
            },
    {
        let mut i: usize = 0;
        while i < self.accounts.len()
            invariant
                0 <= i <= self.accounts@.len(),
                self@.len() == self.accounts@.len(),
                idx_of(self@, id@) == idx_from(self@, id@, i as int),
            decreases self.accounts@.len() - i,
        {
            proof {
                assert(self@[i as int] == self.accounts@[i as int]@);
            }
            if str_eq(self.accounts[i].school_id.as_str(), id) {
                return Some(i);
            }
            i = i + 1;
        }
        None
    }

    /// The deactivation sweep: every account becomes inactive; nothing else
    /// changes.
    pub fn deactivate_all(&mut self)
        ensures
            final(self)@.len() == old(self)@.len(),
            forall|i: int|
                0 <= i < old(self)@.len() ==> final(self)@[i] == deactivated(old(self)@[i]),
            old(self).wf() ==> final(self).wf(),
    {
        let ghost s0 = self@;
        let mut out: Vec<SchoolAccount> = Vec::new();
        let mut i: usize = 0;
        while i < self.accounts.len()
            invariant
                s0 == self@,
                0 <= i <= self.accounts@.len(),
                self@.len() == self.accounts@.len(),
                out@.len() == i,
                forall|j: int| 0 <= j < i ==> out@[j]@ == deactivated(s0[j]),
            decreases self.accounts@.len() - i,
        {
            proof {
                assert(self@[i as int] == self.accounts@[i as int]@);
            }
            let a = clone_account(&self.accounts[i]);
            out.push(
                SchoolAccount {
                    school_id: a.school_id,
                    first_name: a.first_name,
                    middle_name: a.middle_name,
                    last_name: a.last_name,
                    is_active: false,
                    last_updated_semester_id: a.last_updated_semester_id,
                },
            );
            i = i + 1;
        }
        self.accounts = out;
        proof {
            if unique_keys(s0) {
                assert forall|p: int, q: int|
                    0 <= p < q < self@.len() implies #[trigger] self@[p].school_id
                    != #[trigger] self@[q].school_id by {
                    assert(self@[p].school_id == s0[p].school_id);
                    assert(self@[q].school_id == s0[q].school_id);
                }
            }
        }
    }

    /// The activation sweep: every account whose external identifier is in
    /// `ids` becomes active; the others keep their flag; nothing else
    /// changes.
    pub fn activate_many(&mut self, ids: &Vec<String>)
        ensures
            final(self)@.len() == old(self)@.len(),
            forall|i: int|
                0 <= i < old(self)@.len() ==> final(self)@[i] == with_active(
                    old(self)@[i],
                    old(self)@[i].is_active || contains_str(
                        ids.deep_view(),
                        old(self)@[i].school_id,
                    ),
                ),
            old(self).wf() ==> final(self).wf(),
    {
        let ghost s0 = self@;
        let mut out: Vec<SchoolAccount> = Vec::new();
        let mut i: usize = 0;
        while i < self.accounts.len()
            invariant
                s0 == self@,
                0 <= i <= self.accounts@.len(),
                self@.len() == self.accounts@.len(),
                out@.len() == i,
                forall|j: int|
                    0 <= j < i ==> out@[j]@ == with_active(
                        s0[j],
                        s0[j].is_active || contains_str(ids.deep_view(), s0[j].school_id),
                    ),
            decreases self.accounts@.len() - i,
        {
            proof {
                assert(self@[i as int] == self.accounts@[i as int]@);
            }
            let a = clone_account(&self.accounts[i]);
            let present = contains_string(ids, a.school_id.as_str());
            let active = a.is_active || present;
            out.push(
                SchoolAccount {
                    school_id: a.school_id,
                    first_name: a.first_name,
                    middle_name: a.middle_name,
                    last_name: a.last_name,
                    is_active: active,
                    last_updated_semester_id: a.last_updated_semester_id,
                },
            );
            i = i + 1;
        }
        self.accounts = out;
        proof {
            if unique_keys(s0) {
                assert forall|p: int, q: int|
                    0 <= p < q < self@.len() implies #[trigger] self@[p].school_id
                    != #[trigger] self@[q].school_id by {
                    assert(self@[p].school_id == s0[p].school_id);
                    assert(self@[q].school_id == s0[q].school_id);
                }
            }
        }
    }
}

/// One informational match of the existing-account cross-check: an account
/// the file already names, and the first data row that names it. Never a
/// validation failure; the store is keyed by the external identifier, which
/// therefore also serves as the existing account's identifier.
#[derive(Debug)]
pub struct ExistingAccountInfo {
    pub existing_id: String,
    pub school_id: String,
    pub first_name: Option<String>,
    pub last_name: Option<String>,
    pub row_number: usize,
}

/// Mathematical model of one informational match.
#[verifier::ext_equal]
pub ghost struct SpecExistingInfo {
    pub existing_id: Seq<char>,
    pub school_id: Seq<char>,
    pub first_name: Option<Seq<char>>,
    pub last_name: Option<Seq<char>>,
    pub row: int,
}

impl View for ExistingAccountInfo {
    type V = SpecExistingInfo;

    open spec fn view(&self) -> SpecExistingInfo {
        SpecExistingInfo {
            existing_id: self.existing_id@,
            school_id: self.school_id@,
            first_name: self.first_name.deep_view(),
            last_name: self.last_name.deep_view(),
            row: self.row_number as int,
        }
    }
}

/// The models of a list of informational matches, in order.
pub open spec fn infos_view(v: Seq<ExistingAccountInfo>) -> Seq<SpecExistingInfo> {
    v.map_values(|e: ExistingAccountInfo| e@)
}

/// Index of the first data row whose trimmed key cell equals `key`,
/// scanning from `i`; `-1` when there is none.
pub open spec fn first_row_from(recs: Seq<Seq<Seq<char>>>, col: int, key: Seq<char>, i: int) -> int
    decreases recs.len() - i,
{
    if i < 0 || i >= recs.len() {
        -1
    } else if trimmed(value_at(recs[i], col)) == key {
        i
    } else {
        first_row_from(recs, col, key, i + 1)
    }
}

/// Index of the first data row whose trimmed key cell equals `key`.
pub open spec fn first_row(recs: Seq<Seq<Seq<char>>>, col: int, key: Seq<char>) -> int {
    first_row_from(recs, col, key, 0)
}

/// The informational match for one account, attributed to a 1-based data
/// row.
pub open spec fn existing_info(a: SpecAccount, row: int) -> SpecExistingInfo {
    SpecExistingInfo {
        existing_id: a.school_id,
        school_id: a.school_id,
        first_name: Some(a.first_name),
        last_name: Some(a.last_name),
        row,
    }
}

/// The matches among the first `k` store accounts: one per account whose
/// (non-empty) key some data row names in its key column, in store order.
pub open spec fn existing_infos_upto(
    s: Seq<SpecAccount>,
    recs: Seq<Seq<Seq<char>>>,
    col: int,
    k: int,
) -> Seq<SpecExistingInfo>
    decreases k,
{
    if k <= 0 {
        Seq::empty()
    } else {
        existing_infos_upto(s, recs, col, k - 1) + ({
            let a = s[k - 1];
            if a.school_id.len() > 0 && first_row(recs, col, a.school_id) >= 0 {
                seq![existing_info(a, first_row(recs, col, a.school_id) + 1)]
            } else {
                Seq::empty()
            }
        })
    }
}

pub open spec fn existing_infos(
    s: Seq<SpecAccount>,
    recs: Seq<Seq<Seq<char>>>,
    col: int,
) -> Seq<SpecExistingInfo> {
    existing_infos_upto(s, recs, col, s.len() as int)
}

/// The first data row whose trimmed cell in column `col` equals `key`.
fn find_first_row(records: &Vec<Vec<String>>, col: usize, key: &str) -> (r: Option<usize>)
    ensures
        match r {
            Some(i) => first_row(records.deep_view(), col as int, key@) == i as int && (i as int)
                < records@.len(),
            None => first_row(records.deep_view(), col as int, key@) == -1,
        },
{
    let ghost recs = records.deep_view();
    let mut i: usize = 0;
    while i < records.len()
        invariant
            recs == records.deep_view(),
            recs.len() == records@.len(),
            0 <= i <= records@.len(),
            first_row(recs, col as int, key@) == first_row_from(recs, col as int, key@, i as int),
        decreases records@.len() - i,
    {
        proof {
            assert(recs[i as int] == records@[i as int].deep_view());
        }
        let t = trim_str(field_at(&records[i], col));
        if str_eq(t, key) {
            return Some(i);
        }
        i = i + 1;
    }
    None
}

impl CsvValidator {
    /// The existing-account cross-check: for every stored account whose
    /// (non-empty) external identifier some data row names in the
    /// `student_id` column, one informational match carrying the account and
    /// the first (1-based) data row that names it, in store order. Purely
    /// informational; an absent `student_id` column yields no matches.
    pub fn check_existing_school_accounts(
        &self,
        headers: &Vec<String>,
        records: &Vec<Vec<String>>,
        store: &AccountStore,
    ) -> (r: Vec<ExistingAccountInfo>)
        ensures
            ({
                let col = find_ic(headers.deep_view(), "student_id"@);
                if col < 0 {
                    r@.len() == 0
                } else {
                    infos_view(r@) == existing_infos(store@, records.deep_view(), col)
                }
            }),
    {
        let ghost recs = records.deep_view();
        let record_count = records.len();
        let col = match find_header(headers, "student_id") {
            Some(i) => i,
            None => {
                return Vec::new();
            },
        };
        let mut out: Vec<ExistingAccountInfo> = Vec::new();
        let mut k: usize = 0;
        while k < store.accounts.len()
            invariant
                recs == records.deep_view(),
                record_count == records@.len(),
                (col as int) == find_ic(headers.deep_view(), "student_id"@),
                0 <= k <= store.accounts@.len(),
                store@.len() == store.accounts@.len(),
                infos_view(out@) == existing_infos_upto(store@, recs, col as int, k as int),
            decreases store.accounts@.len() - k,
        {
            proof {
                assert(store@[k as int] == store.accounts@[k as int]@);
            }
            let a = &store.accounts[k];
            if !a.school_id.as_str().is_empty() {
                match find_first_row(records, col, a.school_id.as_str()) {
                    Some(row_idx) => {
                        proof {
                            assert(records.deep_view().len() == records@.len());
                            assert(row_idx < record_count);
                        }
                        let info = ExistingAccountInfo {
                            existing_id: a.school_id.clone(),
                            school_id: a.school_id.clone(),
                            first_name: Some(a.first_name.clone()),
                            last_name: Some(a.last_name.clone()),
                            row_number: row_idx + 1,
                        };
                        proof {
                            assert(info@ == existing_info(
                                store@[k as int],
                                first_row(recs, col as int, store@[k as int].school_id) + 1,
                            ));
                        }
                        out.push(info);
                    },
                    None => {},
                }
            }
            proof {
                assert(infos_view(out@) =~= existing_infos_upto(
                    store@,
                    recs,
                    col as int,
                    k as int + 1,
                ));
            }
            k = k + 1;
        }
        out
    }
}

} // verus!
