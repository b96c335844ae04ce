use vstd::prelude::*;
use vstd::string::*;
use crate::archive::strings_view;
use crate::error::AppError;

verus! {

/// Disk use of one site tree.
#[derive(Debug, Clone)]
pub struct StorageUsage {
    pub site_id: String,
    pub path: String,
    pub size_bytes: u64,
    pub file_count: u64,
}

/// Disk use of all site trees.
#[derive(Debug, Clone)]
pub struct StorageSummary {
    pub total_bytes: u64,
    pub total_sites: usize,
    pub per_site: Vec<StorageUsage>,
}

/// How the stored records and the site directories on disk disagree.
#[derive(Debug, Clone)]
pub struct SitesMismatchReport {
    /// Directories on disk that no record names.
    pub orphan_site_dirs: Vec<String>,
    /// Records whose directory is missing on disk.
    pub missing_site_dirs: Vec<String>,
    /// The identifiers of all records.
    pub db_site_ids: Vec<String>,
    /// The names of all site directories on disk.
    pub disk_site_dirs: Vec<String>,
}

/// Admin endpoints require the token secret as their key.
pub fn check_admin_key(key: Option<&str>, secret: &str) -> (r: Result<(), AppError>)
    ensures
        r is Ok <==> (key matches Some(k) && k@ == secret@),
        r matches Err(e) ==> e is AuthorizationFailed,
{
    match key {
        Some(k) => {
            if String::from_str(k) == String::from_str(secret) {
                Ok(())
            } else {
                Err(AppError::AuthorizationFailed)
            }
        },
        None => Err(AppError::AuthorizationFailed),
    }
}

/// The entries of `xs` that do not occur in `ys`, in order.
pub open spec fn absent_from(xs: Seq<Seq<char>>, ys: Seq<Seq<char>>) -> Seq<Seq<char>>
    decreases xs.len(),
{
    if xs.len() == 0 {
        Seq::empty()
    } else {
        let k = absent_from(xs.drop_last(), ys);
        if ys.contains(xs.last()) {
            k
        } else {
            k.push(xs.last())
        }
    }
}

fn contains_text(ys: &Vec<String>, x: &String) -> (r: bool)
    ensures
        r == strings_view(ys@).contains(x@),
{
    let mut i: usize = 0;
    while i < ys.len()
        invariant
            i <= ys@.len(),
            forall|j: int| 0 <= j < i ==> (#[trigger] ys@[j])@ != x@,
        decreases ys@.len() - i,
    {
        if ys[i] == *x {
            assert(strings_view(ys@)[i as int] == x@);
            return true;
        }
        i = i + 1;
    }
    proof {
        if strings_view(ys@).contains(x@) {
            let j = choose|j: int| 0 <= j < strings_view(ys@).len() && strings_view(ys@)[j] == x@;
            assert(ys@[j]@ == x@);
        }
    }
    false
}

fn keep_absent(xs: &Vec<String>, ys: &Vec<String>) -> (r: Vec<String>)
    ensures
        strings_view(r@) == absent_from(strings_view(xs@), strings_view(ys@)),
{
    let mut out: Vec<String> = Vec::new();
    let mut i: usize = 0;
    while i < xs.len()
        invariant
            i <= xs@.len(),
            strings_view(out@) == absent_from(strings_view(xs@.subrange(0, i as int)), strings_view(ys@)),
        decreases xs@.len() - i,
    {
        let ghost before = strings_view(out@);
        let present = contains_text(ys, &xs[i]);
        if !present {
            out.push(xs[i].clone());
        }
        proof {
            let pre = strings_view(xs@.subrange(0, i + 1));
            assert(pre.drop_last() =~= strings_view(xs@.subrange(0, i as int)));
            assert(pre.last() == xs@[i as int]@);
            if !present {
                assert(strings_view(out@) =~= before.push(xs@[i as int]@));
            } else {
                assert(strings_view(out@) =~= before);
            }
        }
        i = i + 1;
    }
    assert(xs@.subrange(0, xs@.len() as int) =~= xs@);
    out
}

impl SitesMismatchReport {
    /// Compares the record identifiers with the directory names found on disk.
    pub fn compare(db_site_ids: Vec<String>, disk_site_dirs: Vec<String>) -> (r: SitesMismatchReport)
        ensures
            strings_view(r.orphan_site_dirs@) == absent_from(strings_view(disk_site_dirs@), strings_view(db_site_ids@)),
            strings_view(r.missing_site_dirs@) == absent_from(strings_view(db_site_ids@), strings_view(disk_site_dirs@)),
            r.db_site_ids@ == db_site_ids@,
            r.disk_site_dirs@ == disk_site_dirs@,
    {
        let orphan_site_dirs = keep_absent(&disk_site_dirs, &db_site_ids);
        let missing_site_dirs = keep_absent(&db_site_ids, &disk_site_dirs);
        SitesMismatchReport { orphan_site_dirs, missing_site_dirs, db_site_ids, disk_site_dirs }
    }
}

/// The sum of the sizes of the first `n` site trees.
pub open spec fn total_size(per_site: Seq<StorageUsage>, n: int) -> int
    decreases n,
{
    if n <= 0 {
        0
    } else {
        total_size(per_site, n - 1) + per_site[n - 1].size_bytes
    }
}

impl StorageSummary {
    /// Totals the disk use of the site trees.
    pub fn from_usage(per_site: Vec<StorageUsage>) -> (r: StorageSummary)
        requires
            total_size(per_site@, per_site@.len() as int) <= u64::MAX,
        ensures
            r.total_bytes == total_size(per_site@, per_site@.len() as int),
            r.total_sites == per_site@.len(),
            r.per_site@ == per_site@,
    {
        let mut total: u64 = 0;
        let mut i: usize = 0;
        while i < per_site.len()
            invariant
                i <= per_site@.len(),
                total == total_size(per_site@, i as int),
                total_size(per_site@, per_site@.len() as int) <= u64::MAX,
            decreases per_site@.len() - i,
        {
            proof {
                lemma_total_size_monotone(per_site@, i + 1, per_site@.len() as int);
            }
            total = total + per_site[i].size_bytes;
            i = i + 1;
        }
        let total_sites = per_site.len();
        StorageSummary { total_bytes: total, total_sites, per_site }
    }
}

proof fn lemma_total_size_monotone(s: Seq<StorageUsage>, a: int, b: int)
    requires
        0 <= a <= b <= s.len(),
    ensures
        total_size(s, a) <= total_size(s, b),
    decreases b - a,
{
    if a < b {
        lemma_total_size_monotone(s, a, b - 1);
    }
}

} // verus!
