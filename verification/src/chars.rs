//! Character-level helpers shared by the validator and the transformer:
//! ASCII case folding, case-insensitive comparison, whitespace trimming,
//! and field access into a parsed row.
use vstd::prelude::*;
use vstd::string::StrSliceExecFns;

verus! {

/// ASCII case folding: maps an upper-case ASCII letter to its lower-case
/// counterpart and leaves every other character unchanged (as a code point).
pub open spec fn fold_char(c: char) -> int {
    if 65 <= c as int && c as int <= 90 {
        c as int + 32
    } else {
        c as int
    }
}

pub fn fold_char_exec(c: char) -> (r: u32)
    ensures
        r as int == fold_char(c),
{
    let u = c as u32;
    if 65 <= u && u <= 90 {
        u + 32
    } else {
        u
    }
}

/// Case-insensitive equality of two character sequences, under ASCII folding.
pub open spec fn eq_ic(a: Seq<char>, b: Seq<char>) -> bool {
    a.len() == b.len() && forall|i: int| 0 <= i < a.len() ==> fold_char(a[i]) == fold_char(b[i])
}

pub fn eq_ic_str(a: &str, b: &str) -> (r: bool)
    ensures
        r == eq_ic(a@, b@),
{
    let alen = a.unicode_len();
    let blen = b.unicode_len();
    if alen != blen {
        return false;
    }
    let mut i: usize = 0;
    while i < alen
        invariant
            0 <= i <= alen,
            alen == a@.len(),
            alen == b@.len(),
            forall|j: int| 0 <= j < i ==> fold_char(a@[j]) == fold_char(b@[j]),
        decreases alen - i,
    {
        let ca = a.get_char(i);
        let cb = b.get_char(i);
        if fold_char_exec(ca) != fold_char_exec(cb) {
            return false;
        }
        i = i + 1;
    }
    true
}

/// Exact (case-sensitive) equality of two string slices.
pub fn str_eq(a: &str, b: &str) -> (r: bool)
    ensures
        r == (a@ == b@),
{
    let alen = a.unicode_len();
    let blen = b.unicode_len();
    if alen != blen {
        return false;
    }
    let mut i: usize = 0;
    while i < alen
        invariant
            0 <= i <= alen,
            alen == a@.len(),
            alen == b@.len(),
            forall|j: int| 0 <= j < i ==> a@[j] == b@[j],
        decreases alen - i,
    {
        let ca = a.get_char(i);
        let cb = b.get_char(i);
        if ca != cb {
            return false;
        }
        i = i + 1;
    }
    proof {
        assert(a@ =~= b@);
    }
    true
}

/// The whitespace characters recognized when trimming a field value:
/// space, horizontal tab, line feed, vertical tab, form feed, carriage return.
pub open spec fn is_space_char(c: char) -> bool {
    c as int == 32 || 9 <= c as int <= 13
}

pub fn is_space(c: char) -> (r: bool)
    ensures
        r == is_space_char(c),
{
    let u = c as u32;
    u == 32 || (9 <= u && u <= 13)
}

/// The sequence with leading and trailing whitespace removed.
pub open spec fn trimmed(s: Seq<char>) -> Seq<char>
    decreases s.len(),
{
    if s.len() == 0 {
        s
    } else if is_space_char(s[0]) {
        trimmed(s.subrange(1, s.len() as int))
    } else if is_space_char(s[s.len() - 1]) {
        trimmed(s.subrange(0, s.len() - 1))
    } else {
        s
    }
}

/// A value is blank when nothing is left of it after trimming.
pub open spec fn blank(s: Seq<char>) -> bool {
    trimmed(s).len() == 0
}

proof fn lemma_trimmed_range(s: Seq<char>, a: int, b: int)
    requires
        0 <= a <= b <= s.len(),
        forall|j: int| 0 <= j < a ==> is_space_char(s[j]),
        forall|j: int| b <= j < s.len() ==> is_space_char(s[j]),
        a < b ==> !is_space_char(s[a]) && !is_space_char(s[b - 1]),
    ensures
        trimmed(s) == s.subrange(a, b),
    decreases s.len(),
{
    if s.len() == 0 {
        assert(trimmed(s) =~= s.subrange(a, b));
    } else if is_space_char(s[0]) {
        let t = s.subrange(1, s.len() as int);
        if a == 0 {
            // then b == 0, since s[a] would not be a space if a < b
            lemma_trimmed_range(t, 0, 0);
            assert(trimmed(s) =~= s.subrange(a, b));
        } else {
            lemma_trimmed_range(t, a - 1, b - 1);
            assert(t.subrange(a - 1, b - 1) =~= s.subrange(a, b));
        }
    } else if is_space_char(s[s.len() - 1]) {
        let t = s.subrange(0, s.len() - 1);
        // b < s.len(), since s[b - 1] would not be a space if b == s.len()
        lemma_trimmed_range(t, a, b);
        assert(t.subrange(a, b) =~= s.subrange(a, b));
    } else {
        // neither end is a space, so a == 0 and b == s.len()
        assert(trimmed(s) =~= s.subrange(a, b));
    }
}

/// Removes leading and trailing whitespace from a string slice.
pub fn trim_str<'a>(s: &'a str) -> (r: &'a str)
    ensures
        r@ == trimmed(s@),
{
    let len = s.unicode_len();
    let mut start: usize = 0;
    while start < len && is_space(s.get_char(start))
        invariant
            0 <= start <= len,
            len == s@.len(),
            forall|j: int| 0 <= j < start ==> is_space_char(s@[j]),
        decreases len - start,
    {
        start = start + 1;
    }
    let mut end: usize = len;
    while end > start && is_space(s.get_char(end - 1))
        invariant
            start <= end <= len,
            len == s@.len(),
            forall|j: int| end <= j < len ==> is_space_char(s@[j]),
        decreases end,
    {
        end = end - 1;
    }
    proof {
        lemma_trimmed_range(s@, start as int, end as int);
    }
    s.substring_char(start, end)
}

/// The value of a row at a column index; out-of-range columns read as empty,
/// as a short row leaves the missing trailing fields blank.
pub open spec fn value_at(rec: Seq<Seq<char>>, i: int) -> Seq<char> {
    if 0 <= i < rec.len() {
        rec[i]
    } else {
        Seq::empty()
    }
}

pub fn field_at<'a>(rec: &'a Vec<String>, idx: usize) -> (r: &'a str)
    ensures
        r@ == value_at(rec.deep_view(), idx as int),
{
    if idx < rec.len() {
        rec[idx].as_str()
    } else {
        let e = "";
        proof {
            reveal_strlit("");
            assert(e@ =~= Seq::<char>::empty());
        }
        e
    }
}

/// Index of the first header whose name matches `name` case-insensitively,
/// scanning from position `i`; `-1` when there is none.
pub open spec fn find_ic_from(hs: Seq<Seq<char>>, name: Seq<char>, i: int) -> int
    decreases hs.len() - i,
{
    if i < 0 || i >= hs.len() {
        -1
    } else if eq_ic(hs[i], name) {
        i
    } else {
        find_ic_from(hs, name, i + 1)
    }
}

/// Index of the first header matching `name` case-insensitively, or `-1`.
pub open spec fn find_ic(hs: Seq<Seq<char>>, name: Seq<char>) -> int {
    find_ic_from(hs, name, 0)
}

/// Resolves a column name against the header row, case-insensitively.
pub fn find_header(headers: &Vec<String>, name: &str) -> (r: Option<usize>)
    ensures
        match r {
            Some(i) => find_ic(headers.deep_view(), name@) == i as int,
            None => find_ic(headers.deep_view(), name@) == -1,
        },
{
    let ghost hs = headers.deep_view();
    let mut i: usize = 0;
    while i < headers.len()
        invariant
            0 <= i <= headers.len(),
            hs == headers.deep_view(),
            hs.len() == headers.len(),
            find_ic(hs, name@) == find_ic_from(hs, name@, i as int),
        decreases headers.len() - i,
    {
        if eq_ic_str(headers[i].as_str(), name) {
            return Some(i);
        }
        i = i + 1;
    }
    None
}

/// Whether some element of `ids` is exactly equal to `key`.
pub open spec fn contains_str(ids: Seq<Seq<char>>, key: Seq<char>) -> bool {
    exists|j: int| 0 <= j < ids.len() && ids[j] == key
}

pub fn contains_string(ids: &Vec<String>, key: &str) -> (r: bool)
    ensures
        r == contains_str(ids.deep_view(), key@),
{
    let ghost s = ids.deep_view();
    let mut i: usize = 0;
    while i < ids.len()
        invariant
            0 <= i <= ids.len(),
            s == ids.deep_view(),
            s.len() == ids.len(),
            forall|j: int| 0 <= j < i ==> s[j] != key@,
        decreases ids.len() - i,
    {
        if str_eq(ids[i].as_str(), key) {
            proof {
                assert(s[i as int] == ids@[i as int]@);
            }
            return true;
        }
        i = i + 1;
    }
    false
}

} // verus!
