use vstd::prelude::*;
use vstd::string::*;
use crate::error::AppError;
use crate::ids::{uuid_string, uuid_text};
use crate::models::{Site, SiteModel};

verus! {

/// A key of the owner index: owner, creation time and identifier, ordered in
/// that sequence, so that one owner's sites form one run in creation order.
#[derive(Debug, Clone, Copy, PartialEq, Eq, Structural)]
pub struct IndexKey {
    pub owner_id: u128,
    pub created_at: i64,
    pub id: u128,
}

/// The owner-index key of a record.
pub open spec fn key_of(s: SiteModel) -> IndexKey {
    IndexKey { owner_id: s.owner_id, created_at: s.created_at, id: s.id }
}

/// The order of the owner index.
pub open spec fn key_lt(a: IndexKey, b: IndexKey) -> bool {
    a.owner_id < b.owner_id || (a.owner_id == b.owner_id && (a.created_at < b.created_at || (
    a.created_at == b.created_at && a.id < b.id)))
}

proof fn lemma_key_order()
    ensures
        forall|a: IndexKey, b: IndexKey, c: IndexKey|
            #[trigger] key_lt(a, b) && #[trigger] key_lt(b, c) ==> key_lt(a, c),
        forall|a: IndexKey, b: IndexKey| #[trigger] key_lt(a, b) ==> !key_lt(b, a) && a != b,
        forall|a: IndexKey, b: IndexKey| a != b ==> #[trigger] key_lt(a, b) || #[trigger] key_lt(b, a),
{
}

/// `a` is more recent than `b`: created later, or at the same time with a
/// larger identifier.
pub open spec fn newer(a: SiteModel, b: SiteModel) -> bool {
    a.created_at > b.created_at || (a.created_at == b.created_at && a.id > b.id)
}

proof fn lemma_newer_order()
    ensures
        forall|a: SiteModel, b: SiteModel, c: SiteModel|
            #[trigger] newer(a, b) && #[trigger] newer(b, c) ==> newer(a, c),
        forall|a: SiteModel, b: SiteModel| #[trigger] newer(a, b) ==> !newer(b, a),
        forall|a: SiteModel, b: SiteModel| a.id != b.id ==> #[trigger] newer(a, b) || #[trigger] newer(b, a),
{
}

fn is_newer(a: &Site, b: &Site) -> (r: bool)
    ensures
        r == newer(a@, b@),
{
    a.created_at > b.created_at || (a.created_at == b.created_at && a.id > b.id)
}

/// `s` lists, newest first, exactly the records of `m` that `sel` picks.
pub open spec fn is_listing(
    m: Map<u128, SiteModel>,
    sel: spec_fn(SiteModel) -> bool,
    s: Seq<SiteModel>,
) -> bool {
    &&& forall|j: int| 0 <= j < s.len() ==> m.contains_key(#[trigger] s[j].id) && m[s[j].id] == s[j] && sel(s[j])
    &&& forall|id: u128| #[trigger] m.contains_key(id) && sel(m[id]) ==> exists|j: int| 0 <= j < s.len() && #[trigger] s[j].id == id
    &&& forall|i: int, j: int| 0 <= i < j < s.len() ==> newer(#[trigger] s[i], #[trigger] s[j])
}

/// `s` lists the records of `m` that belong to `owner`, newest first.
pub open spec fn is_owner_listing(m: Map<u128, SiteModel>, owner: u128, s: Seq<SiteModel>) -> bool {
    is_listing(m, |r: SiteModel| r.owner_id == owner, s)
}

/// `s` lists the records of `m` named `name`, newest first.
pub open spec fn is_name_listing(m: Map<u128, SiteModel>, name: Seq<char>, s: Seq<SiteModel>) -> bool {
    is_listing(m, |r: SiteModel| r.name == name, s)
}

/// `r` is the most recent record of `m` named `name`, or `None` when there is none.
pub open spec fn is_latest_by_name(m: Map<u128, SiteModel>, name: Seq<char>, r: Option<SiteModel>) -> bool {
    match r {
        None => forall|id: u128| #[trigger] m.contains_key(id) ==> m[id].name != name,
        Some(s) => {
            &&& m.contains_key(s.id)
            &&& m[s.id] == s
            &&& s.name == name
            &&& forall|id: u128| #[trigger] m.contains_key(id) && m[id].name == name && id != s.id ==> newer(s, m[id])
        },
    }
}

/// The views of a sequence of records.
pub open spec fn site_views(v: Seq<Site>) -> Seq<SiteModel> {
    Seq::new(v.len(), |i: int| v[i]@)
}

/// `{base}/{segment}`: a path below the sites directory.
pub open spec fn files_path(base: Seq<char>, segment: Seq<char>) -> Seq<char> {
    base + seq!['/'] + segment
}

/// The site record store: records by identifier, and an owner index kept in
/// key order so that one owner's sites are found without reading the others.
pub struct SiteStorage {
    records: Vec<Site>,
    owner_index: Vec<IndexKey>,
    site_files_path: String,
    sites: Ghost<Map<u128, SiteModel>>,
}

impl View for SiteStorage {
    type V = Map<u128, SiteModel>;

    closed spec fn view(&self) -> Map<u128, SiteModel> {
        self.sites@
    }
}

impl SiteStorage {
    /// Records sorted by identifier, each the one the map holds; the index
    /// holds exactly the keys of the records, in key order.
    pub closed spec fn wf(&self) -> bool {
        &&& forall|i: int, j: int| 0 <= i < j < self.records@.len() ==> self.records@[i].id < self.records@[j].id
        &&& forall|i: int| 0 <= i < self.records@.len() ==> #[trigger] self.sites@.contains_key(self.records@[i].id)
            && self.sites@[self.records@[i].id] == self.records@[i]@
        &&& forall|id: u128| #[trigger] self.sites@.contains_key(id) ==> exists|i: int| 0 <= i < self.records@.len() && #[trigger] self.records@[i].id == id
        &&& forall|id: u128| #[trigger] self.sites@.contains_key(id) ==> self.sites@[id].id == id
        &&& forall|i: int, j: int| 0 <= i < j < self.owner_index@.len() ==> key_lt(self.owner_index@[i], self.owner_index@[j])
        &&& forall|j: int| 0 <= j < self.owner_index@.len() ==> #[trigger] self.sites@.contains_key(self.owner_index@[j].id)
            && key_of(self.sites@[self.owner_index@[j].id]) == self.owner_index@[j]
        &&& forall|id: u128| #[trigger] self.sites@.contains_key(id) ==> self.owner_index@.contains(key_of(self.sites@[id]))
    }

    /// The directory under which site trees are written.
    pub closed spec fn files_base(&self) -> Seq<char> {
        self.site_files_path@
    }

    /// An empty store whose site trees live under `site_files_path`.
    pub fn new(site_files_path: String) -> (r: SiteStorage)
        ensures
            r.wf(),
            r@ == Map::<u128, SiteModel>::empty(),
            r.files_base() == site_files_path@,
    {
        SiteStorage {
            records: Vec::new(),
            owner_index: Vec::new(),
            site_files_path,
            sites: Ghost(Map::empty()),
        }
    }

    /// Binary search by identifier: the record's position, or where it would go.
    fn find_record(&self, id: u128) -> (r: Result<usize, usize>)
        requires
            self.wf(),
        ensures
            r matches Ok(i) ==> i < self.records@.len() && self.records@[i as int].id == id,
            r matches Err(i) ==> i <= self.records@.len()
                && (forall|j: int| 0 <= j < i ==> self.records@[j].id < id)
                && (forall|j: int| i <= j < self.records@.len() ==> self.records@[j].id > id),
    {
        let mut lo: usize = 0;
        let mut hi: usize = self.records.len();
        while lo < hi
            invariant
                self.wf(),
                lo <= hi <= self.records@.len(),
                forall|j: int| 0 <= j < lo ==> self.records@[j].id < id,
                forall|j: int| hi <= j < self.records@.len() ==> self.records@[j].id > id,
            decreases hi - lo,
        {
            let mid = lo + (hi - lo) / 2;
            let mid_id = self.records[mid].id;
            if mid_id == id {
                return Ok(mid);
            } else if mid_id < id {
                lo = mid + 1;
            } else {
                hi = mid;
            }
        }
        Err(lo)
    }

    /// The first position of the owner index whose key is not below `key`.
    fn index_lower_bound(&self, key: IndexKey) -> (r: usize)
        requires
            self.wf(),
        ensures
            r <= self.owner_index@.len(),
            forall|j: int| 0 <= j < r ==> key_lt(self.owner_index@[j], key),
            forall|j: int| r <= j < self.owner_index@.len() ==> !key_lt(self.owner_index@[j], key),
    {
        proof {
            lemma_key_order();
        }
        let mut lo: usize = 0;
        let mut hi: usize = self.owner_index.len();
        while lo < hi
            invariant
                self.wf(),
                lo <= hi <= self.owner_index@.len(),
                forall|j: int| 0 <= j < lo ==> key_lt(self.owner_index@[j], key),
                forall|j: int| hi <= j < self.owner_index@.len() ==> !key_lt(self.owner_index@[j], key),
            decreases hi - lo,
        {
            let mid = lo + (hi - lo) / 2;
            let k = self.owner_index[mid];
            let below = k.owner_id < key.owner_id || (k.owner_id == key.owner_id && (k.created_at
                < key.created_at || (k.created_at == key.created_at && k.id < key.id)));
            assert(below == key_lt(k, key));
            if below {
                assert forall|j: int| 0 <= j < mid + 1 implies key_lt(self.owner_index@[j], key) by {
                    if j < mid {
                        assert(key_lt(self.owner_index@[j], self.owner_index@[mid as int]));
                    }
                }
                lo = mid + 1;
            } else {
                assert forall|j: int| mid <= j < self.owner_index@.len() implies !key_lt(self.owner_index@[j], key) by {
                    if j > mid {
                        assert(key_lt(self.owner_index@[mid as int], self.owner_index@[j]));
                    }
                }
                hi = mid;
            }
        }
        lo
    }

    /// The record stored under `id`.
    pub fn get(&self, id: u128) -> (r: Option<Site>)
        requires
            self.wf(),
        ensures
            r is Some <==> self@.contains_key(id),
            r matches Some(s) ==> s@ == self@[id],
    {
        match self.find_record(id) {
            Ok(i) => {
                assert(self.sites@.contains_key(self.records@[i as int].id));
                Some(self.records[i].copy_record())
            },
            Err(_) => {
                proof {
                    if self@.contains_key(id) {
                        let i = choose|i: int| 0 <= i < self.records@.len() && #[trigger] self.records@[i].id == id;
                        assert(self.records@[i].id == id);
                    }
                }
                None
            },
        }
    }

    /// Stores a new record and its owner-index entry; an identifier that is
    /// already stored is refused and nothing changes.
    pub fn create(&mut self, site: Site) -> (r: Result<(), AppError>)
        requires
            old(self).wf(),
        ensures
            final(self).wf(),
            final(self).files_base() == old(self).files_base(),
            old(self)@.contains_key(site.id) ==> (r matches Err(e) && e is DuplicateId) && final(self)@ == old(self)@,
            !old(self)@.contains_key(site.id) ==> r is Ok && final(self)@ == old(self)@.insert(site.id, site@),
    {
        proof {
            lemma_key_order();
        }
        let pos = match self.find_record(site.id) {
            Ok(i) => {
                assert(self.sites@.contains_key(self.records@[i as int].id));
                return Err(AppError::DuplicateId);
            },
            Err(p) => p,
        };
        let ghost sv = site@;
        let ghost old_sites = self.sites@;
        let ghost old_records = self.records@;
        let ghost old_index = self.owner_index@;
        proof {
            if old_sites.contains_key(site.id) {
                let i = choose|i: int| 0 <= i < old_records.len() && #[trigger] old_records[i].id == site.id;
                assert(old_records[i].id == site.id);
            }
        }
        let key = IndexKey { owner_id: site.owner_id, created_at: site.created_at, id: site.id };
        let ipos = self.index_lower_bound(key);
        assert(key == key_of(sv));
        self.records.insert(pos, site);
        self.owner_index.insert(ipos, key);
        self.sites = Ghost(old_sites.insert(key.id, sv));
        proof {
            let new_records = self.records@;
            let new_index = self.owner_index@;
            let new_sites = self.sites@;
            assert(new_records.len() == old_records.len() + 1);
            assert forall|k: int| 0 <= k < new_records.len() implies #[trigger] new_records[k] == (if k < pos {
                old_records[k]
            } else if k == pos {
                new_records[pos as int]
            } else {
                old_records[k - 1]
            }) by {}
            assert(new_records[pos as int]@ == sv);
            // records stay sorted by identifier
            assert forall|i: int, j: int| 0 <= i < j < new_records.len() implies new_records[i].id < new_records[j].id by {
                if j < pos {
                    assert(old_records[i].id < old_records[j].id);
                } else if i < pos && j == pos {
                } else if i < pos && j > pos {
                    assert(old_records[i].id < old_records[j - 1].id || i == j - 1);
                } else if i == pos {
                } else {
                    assert(old_records[i - 1].id < old_records[j - 1].id);
                }
            }
            assert forall|i: int| 0 <= i < new_records.len() implies #[trigger] new_sites.contains_key(new_records[i].id)
                && new_sites[new_records[i].id] == new_records[i]@ by {
                if i < pos {
                    assert(old_sites.contains_key(old_records[i].id));
                } else if i > pos {
                    assert(old_sites.contains_key(old_records[i - 1].id));
                }
            }
            assert forall|id: u128| #[trigger] new_sites.contains_key(id) implies exists|i: int|
                0 <= i < new_records.len() && #[trigger] new_records[i].id == id by {
                if id == sv.id {
                    assert(new_records[pos as int].id == id);
                } else {
                    assert(old_sites.contains_key(id));
                    let i = choose|i: int| 0 <= i < old_records.len() && #[trigger] old_records[i].id == id;
                    if i < pos {
                        assert(new_records[i].id == id);
                    } else {
                        assert(new_records[i + 1].id == id);
                    }
                }
            }
            assert forall|id: u128| #[trigger] new_sites.contains_key(id) implies new_sites[id].id == id by {
                if id != sv.id {
                    assert(old_sites.contains_key(id));
                }
            }
            // the index stays in key order
            assert(new_index.len() == old_index.len() + 1);
            assert forall|k: int| 0 <= k < new_index.len() implies #[trigger] new_index[k] == (if k < ipos {
                old_index[k]
            } else if k == ipos {
                key
            } else {
                old_index[k - 1]
            }) by {}
            assert forall|j: int| ipos <= j < old_index.len() implies key_lt(key, #[trigger] old_index[j]) by {
                assert(old_sites.contains_key(old_index[j].id));
                assert(old_index[j] != key);
            }
            assert forall|i: int, j: int| 0 <= i < j < new_index.len() implies key_lt(new_index[i], new_index[j]) by {
                if j < ipos {
                    assert(key_lt(old_index[i], old_index[j]));
                } else if i < ipos && j == ipos {
                } else if i < ipos && j > ipos {
                    if i < j - 1 {
                        assert(key_lt(old_index[i], old_index[j - 1]));
                    }
                } else if i == ipos {
                    assert(key_lt(key, old_index[j - 1]));
                } else {
                    assert(key_lt(old_index[i - 1], old_index[j - 1]));
                }
            }
            assert forall|j: int| 0 <= j < new_index.len() implies #[trigger] new_sites.contains_key(new_index[j].id)
                && key_of(new_sites[new_index[j].id]) == new_index[j] by {
                if j < ipos {
                    assert(old_sites.contains_key(old_index[j].id));
                } else if j > ipos {
                    assert(old_sites.contains_key(old_index[j - 1].id));
                }
            }
            assert forall|id: u128| #[trigger] new_sites.contains_key(id) implies new_index.contains(key_of(new_sites[id])) by {
                if id == sv.id {
                    assert(new_index[ipos as int] == key_of(new_sites[id]));
                } else {
                    assert(old_sites.contains_key(id));
                    assert(old_index.contains(key_of(old_sites[id])));
                    let j = choose|j: int| 0 <= j < old_index.len() && old_index[j] == key_of(old_sites[id]);
                    if j < ipos {
                        assert(new_index[j] == key_of(new_sites[id]));
                    } else {
                        assert(new_index[j + 1] == key_of(new_sites[id]));
                    }
                }
            }
        }
        Ok(())
    }

    /// Removes the record stored under `id` and its owner-index entry,
    /// returning the record; an unknown identifier changes nothing.
    pub fn delete(&mut self, id: u128) -> (r: Option<Site>)
        requires
            old(self).wf(),
        ensures
            final(self).wf(),
            final(self).files_base() == old(self).files_base(),
            final(self)@ == old(self)@.remove(id),
            r is Some <==> old(self)@.contains_key(id),
            r matches Some(s) ==> s@ == old(self)@[id],
    {
        proof {
            lemma_key_order();
        }
        let pos = match self.find_record(id) {
            Ok(p) => p,
            Err(_) => {
                proof {
                    if self@.contains_key(id) {
                        let i = choose|i: int| 0 <= i < self.records@.len() && #[trigger] self.records@[i].id == id;
                        assert(self.records@[i].id == id);
                    }
                    assert(self.sites@.remove(id) =~= self.sites@);
                }
                return None;
            },
        };
        let ghost old_sites = self.sites@;
        let ghost old_records = self.records@;
        let ghost old_index = self.owner_index@;
        assert(old_sites.contains_key(old_records[pos as int].id));
        let key = IndexKey {
            owner_id: self.records[pos].owner_id,
            created_at: self.records[pos].created_at,
            id: self.records[pos].id,
        };
        assert(key == key_of(old_sites[id]));
        let ipos = self.index_lower_bound(key);
        proof {
            assert(old_index.contains(key));
            let j = choose|j: int| 0 <= j < old_index.len() && old_index[j] == key;
            if j < ipos {
                assert(key_lt(old_index[j], key));
            }
            if j > ipos {
                assert(key_lt(old_index[ipos as int], old_index[j]));
            }
            assert(j == ipos);
        }
        let removed = self.records.remove(pos);
        self.owner_index.remove(ipos);
        self.sites = Ghost(old_sites.remove(id));
        proof {
            let new_records = self.records@;
            let new_index = self.owner_index@;
            let new_sites = self.sites@;
            assert forall|k: int| 0 <= k < new_records.len() implies #[trigger] new_records[k] == (if k < pos {
                old_records[k]
            } else {
                old_records[k + 1]
            }) by {}
            assert forall|k: int| 0 <= k < new_index.len() implies #[trigger] new_index[k] == (if k < ipos {
                old_index[k]
            } else {
                old_index[k + 1]
            }) by {}
            assert forall|i: int, j: int| 0 <= i < j < new_records.len() implies new_records[i].id < new_records[j].id by {
                let oi = if i < pos { i } else { i + 1 };
                let oj = if j < pos { j } else { j + 1 };
                assert(old_records[oi].id < old_records[oj].id);
            }
            assert forall|i: int| 0 <= i < new_records.len() implies #[trigger] new_sites.contains_key(new_records[i].id)
                && new_sites[new_records[i].id] == new_records[i]@ by {
                let oi = if i < pos { i } else { i + 1 };
                assert(old_sites.contains_key(old_records[oi].id));
                assert(old_records[oi].id != id);
            }
            assert forall|x: u128| #[trigger] new_sites.contains_key(x) implies exists|i: int|
                0 <= i < new_records.len() && #[trigger] new_records[i].id == x by {
                assert(old_sites.contains_key(x));
                let i = choose|i: int| 0 <= i < old_records.len() && #[trigger] old_records[i].id == x;
                if i < pos {
                    assert(new_records[i].id == x);
                } else {
                    assert(i != pos);
                    assert(new_records[i - 1].id == x);
                }
            }
            assert forall|x: u128| #[trigger] new_sites.contains_key(x) implies new_sites[x].id == x by {
                assert(old_sites.contains_key(x));
            }
            assert forall|i: int, j: int| 0 <= i < j < new_index.len() implies key_lt(new_index[i], new_index[j]) by {
                let oi = if i < ipos { i } else { i + 1 };
                let oj = if j < ipos { j } else { j + 1 };
                assert(key_lt(old_index[oi], old_index[oj]));
            }
            assert forall|j: int| 0 <= j < new_index.len() implies #[trigger] new_sites.contains_key(new_index[j].id)
                && key_of(new_sites[new_index[j].id]) == new_index[j] by {
                let oj = if j < ipos { j } else { j + 1 };
                assert(old_sites.contains_key(old_index[oj].id));
                assert(key_lt(old_index[oj], key) || key_lt(key, old_index[oj]));
            }
            assert forall|x: u128| #[trigger] new_sites.contains_key(x) implies new_index.contains(key_of(new_sites[x])) by {
                assert(old_sites.contains_key(x));
                assert(old_index.contains(key_of(old_sites[x])));
                let j = choose|j: int| 0 <= j < old_index.len() && old_index[j] == key_of(old_sites[x]);
                assert(old_sites[x].id == x);
                assert(j != ipos);
                if j < ipos {
                    assert(new_index[j] == key_of(new_sites[x]));
                } else {
                    assert(new_index[j - 1] == key_of(new_sites[x]));
                }
            }
        }
        Some(removed)
    }

    /// Replaces the stored record with the same identifier, moving its
    /// owner-index entry when the owner or creation time changed; an unknown
    /// identifier is refused and nothing changes.
    pub fn update(&mut self, site: Site) -> (r: Result<(), AppError>)
        requires
            old(self).wf(),
        ensures
            final(self).wf(),
            final(self).files_base() == old(self).files_base(),
            old(self)@.contains_key(site.id) ==> r is Ok && final(self)@ == old(self)@.insert(site.id, site@),
            !old(self)@.contains_key(site.id) ==> (r matches Err(e) && e is NotFound) && final(self)@ == old(self)@,
    {
        let ghost sv = site@;
        match self.delete(site.id) {
            Some(_) => {
                let res = self.create(site);
                assert(res is Ok);
                assert(old(self)@.remove(sv.id).insert(sv.id, sv) =~= old(self)@.insert(sv.id, sv));
                Ok(())
            },
            None => {
                assert(old(self)@.remove(sv.id) =~= old(self)@);
                Err(AppError::NotFound)
            },
        }
    }

    /// Every stored record, in identifier order.
    pub fn list_all(&self) -> (r: Vec<Site>)
        requires
            self.wf(),
        ensures
            forall|j: int| 0 <= j < r@.len() ==> #[trigger] self@.contains_key(r@[j].id) && self@[r@[j].id] == r@[j]@,
            forall|id: u128| #[trigger] self@.contains_key(id) ==> exists|j: int| 0 <= j < r@.len() && #[trigger] r@[j].id == id,
            forall|i: int, j: int| 0 <= i < j < r@.len() ==> r@[i].id < r@[j].id,
    {
        let mut out: Vec<Site> = Vec::new();
        let mut i: usize = 0;
        while i < self.records.len()
            invariant
                self.wf(),
                i <= self.records@.len(),
                out@.len() == i,
                forall|j: int| 0 <= j < i ==> #[trigger] out@[j]@ == self.records@[j]@ && out@[j].id == self.records@[j].id,
            decreases self.records@.len() - i,
        {
            let rec = self.records[i].copy_record();
            assert(rec.id == self.records@[i as int].id);
            let ghost before = out@;
            out.push(rec);
            assert forall|j: int| 0 <= j < i + 1 implies #[trigger] out@[j]@ == self.records@[j]@ && out@[j].id
                == self.records@[j].id by {
                if j < i {
                    assert(out@[j] == before[j]);
                    assert(before[j]@ == self.records@[j]@);
                } else {
                    assert(out@[j] == rec);
                }
            }
            i = i + 1;
        }
        proof {
            assert forall|j: int| 0 <= j < out@.len() implies #[trigger] self@.contains_key(out@[j].id) && self@[out@[j].id] == out@[j]@ by {
                assert(out@[j]@ == self.records@[j]@);
                assert(self.sites@.contains_key(self.records@[j].id));
            }
            assert forall|id: u128| #[trigger] self@.contains_key(id) implies exists|j: int| 0 <= j < out@.len() && #[trigger] out@[j].id == id by {
                let j = choose|j: int| 0 <= j < self.records@.len() && #[trigger] self.records@[j].id == id;
                assert(out@[j]@ == self.records@[j]@);
                assert(out@[j].id == id);
            }
            assert forall|a: int, b: int| 0 <= a < b < out@.len() implies out@[a].id < out@[b].id by {
                assert(out@[a]@ == self.records@[a]@);
                assert(out@[b]@ == self.records@[b]@);
                assert(self.records@[a].id < self.records@[b].id);
            }
        }
        out
    }

    /// The record behind an owner-index entry.
    fn record_at_index(&self, k: usize) -> (r: Site)
        requires
            self.wf(),
            k < self.owner_index@.len(),
        ensures
            self@.contains_key(self.owner_index@[k as int].id),
            r@ == self@[self.owner_index@[k as int].id],
            key_of(r@) == self.owner_index@[k as int],
    {
        let id = self.owner_index[k].id;
        assert(self.sites@.contains_key(id));
        match self.find_record(id) {
            Ok(p) => {
                assert(self.sites@.contains_key(self.records@[p as int].id));
                self.records[p].copy_record()
            },
            Err(_) => {
                proof {
                    let i = choose|i: int| 0 <= i < self.records@.len() && #[trigger] self.records@[i].id == id;
                    assert(self.records@[i].id == id);
                }
                // the well-formedness of the store rules this branch out
                self.records[0].copy_record()
            },
        }
    }

    /// The records of one owner, newest first, read from the owner index
    /// alone: a binary search finds where the owner's run starts.
    pub fn list_by_owner(&self, owner_id: u128) -> (r: Vec<Site>)
        requires
            self.wf(),
        ensures
            is_owner_listing(self@, owner_id, site_views(r@)),
    {
        proof {
            lemma_key_order();
        }
        let low = IndexKey { owner_id, created_at: i64::MIN, id: 0 };
        let lo = self.index_lower_bound(low);
        let mut hi = lo;
        while hi < self.owner_index.len() && self.owner_index[hi].owner_id == owner_id
            invariant
                self.wf(),
                lo <= hi <= self.owner_index@.len(),
                forall|m: int| lo <= m < hi ==> #[trigger] self.owner_index@[m].owner_id == owner_id,
            decreases self.owner_index@.len() - hi,
        {
            hi = hi + 1;
        }
        let mut out: Vec<Site> = Vec::new();
        let mut k = hi;
        while k > lo
            invariant
                self.wf(),
                lo <= k <= hi <= self.owner_index@.len(),
                forall|m: int| lo <= m < hi ==> #[trigger] self.owner_index@[m].owner_id == owner_id,
                out@.len() == hi - k,
                forall|t: int| 0 <= t < out@.len() ==> #[trigger] out@[t]@ == self@[self.owner_index@[hi - 1 - t].id]
                    && key_of(out@[t]@) == self.owner_index@[hi - 1 - t]
                    && self@.contains_key(self.owner_index@[hi - 1 - t].id),
            decreases k - lo,
        {
            let rec = self.record_at_index(k - 1);
            out.push(rec);
            k = k - 1;
        }
        proof {
            let s = site_views(out@);
            let sel = |r: SiteModel| r.owner_id == owner_id;
            assert forall|j: int| 0 <= j < s.len() implies self@.contains_key(#[trigger] s[j].id) && self@[s[j].id] == s[j] && sel(s[j]) by {
                assert(s[j] == out@[j]@);
                assert(self.owner_index@[hi - 1 - j].owner_id == owner_id);
                assert(self.sites@[self.owner_index@[hi - 1 - j].id].id == self.owner_index@[hi - 1 - j].id);
            }
            assert forall|id: u128| #[trigger] self@.contains_key(id) && sel(self@[id]) implies exists|j: int| 0 <= j < s.len() && #[trigger] s[j].id == id by {
                assert(self.owner_index@.contains(key_of(self.sites@[id])));
                let p = choose|p: int| 0 <= p < self.owner_index@.len() && self.owner_index@[p] == key_of(self.sites@[id]);
                assert(self.owner_index@[p].owner_id == owner_id);
                if p < lo {
                    assert(key_lt(self.owner_index@[p], low));
                }
                if p >= hi {
                    assert(hi < self.owner_index@.len());
                    assert(!key_lt(self.owner_index@[hi as int], low));
                    assert(self.owner_index@[hi as int].owner_id != owner_id);
                    if p > hi {
                        assert(key_lt(self.owner_index@[hi as int], self.owner_index@[p]));
                    }
                }
                let t = hi - 1 - p;
                assert(s[t] == out@[t]@);
                assert(self.sites@[id].id == id);
                assert(s[t].id == id);
            }
            assert forall|a: int, b: int| 0 <= a < b < s.len() implies newer(#[trigger] s[a], #[trigger] s[b]) by {
                assert(s[a] == out@[a]@);
                assert(s[b] == out@[b]@);
                assert(key_lt(self.owner_index@[hi - 1 - b], self.owner_index@[hi - 1 - a]));
                assert(self.owner_index@[hi - 1 - a].owner_id == owner_id);
                assert(self.owner_index@[hi - 1 - b].owner_id == owner_id);
            }
        }
        out
    }

    /// The most recent record named `name` (latest creation time; among equal
    /// times, the larger identifier).
    pub fn get_latest_by_name(&self, name: &str) -> (r: Option<Site>)
        requires
            self.wf(),
        ensures
            is_latest_by_name(self@, name@, match r { Some(s) => Some(s@), None => None }),
    {
        proof {
            lemma_newer_order();
        }
        let key = String::from_str(name);
        let mut best: Option<usize> = None;
        let mut i: usize = 0;
        while i < self.records.len()
            invariant
                self.wf(),
                key@ == name@,
                i <= self.records@.len(),
                best matches None ==> forall|j: int| 0 <= j < i ==> #[trigger] self.records@[j].name@ != name@,
                best matches Some(b) ==> b < i && self.records@[b as int].name@ == name@ && forall|j: int|
                    0 <= j < i && j != b && #[trigger] self.records@[j].name@ == name@ ==> newer(
                        self.records@[b as int]@,
                        self.records@[j]@,
                    ),
            decreases self.records@.len() - i,
        {
            if self.records[i].name == key {
                match best {
                    None => {
                        best = Some(i);
                    },
                    Some(b) => {
                        assert(self.records@[b as int].id < self.records@[i as int].id);
                        if is_newer(&self.records[i], &self.records[b]) {
                            best = Some(i);
                        }
                    },
                }
            }
            i = i + 1;
        }
        match best {
            None => {
                proof {
                    assert forall|id: u128| #[trigger] self@.contains_key(id) implies self@[id].name != name@ by {
                        let j = choose|j: int| 0 <= j < self.records@.len() && #[trigger] self.records@[j].id == id;
                        assert(self.sites@.contains_key(self.records@[j].id));
                        assert(self.records@[j].name@ != name@);
                    }
                }
                None
            },
            Some(b) => {
                let r = self.records[b].copy_record();
                proof {
                    assert(self.sites@.contains_key(self.records@[b as int].id));
                    assert forall|id: u128| #[trigger] self@.contains_key(id) && self@[id].name == name@ && id != r@.id implies newer(r@, self@[id]) by {
                        let j = choose|j: int| 0 <= j < self.records@.len() && #[trigger] self.records@[j].id == id;
                        assert(self.sites@.contains_key(self.records@[j].id));
                        assert(self.records@[j].name@ == name@);
                        assert(j != b);
                    }
                }
                Some(r)
            },
        }
    }

    /// The record a name resolves to: its latest version.
    pub fn get_by_name(&self, name: &str) -> (r: Option<Site>)
        requires
            self.wf(),
        ensures
            is_latest_by_name(self@, name@, match r { Some(s) => Some(s@), None => None }),
    {
        self.get_latest_by_name(name)
    }

    /// Every record named `name`, newest first.
    pub fn get_all_by_name(&self, name: &str) -> (r: Vec<Site>)
        requires
            self.wf(),
        ensures
            is_name_listing(self@, name@, site_views(r@)),
    {
        proof {
            lemma_newer_order();
        }
        let key = String::from_str(name);
        let mut out: Vec<Site> = Vec::new();
        let mut i: usize = 0;
        while i < self.records.len()
            invariant
                self.wf(),
                key@ == name@,
                i <= self.records@.len(),
                forall|t: int| 0 <= t < out@.len() ==> exists|j: int| 0 <= j < i && #[trigger] out@[t]@ == self.records@[j]@
                    && self.records@[j].name@ == name@,
                forall|j: int| 0 <= j < i && #[trigger] self.records@[j].name@ == name@ ==> exists|t: int|
                    0 <= t < out@.len() && #[trigger] out@[t].id == self.records@[j].id,
                forall|a: int, b: int| 0 <= a < b < out@.len() ==> newer(#[trigger] out@[a]@, #[trigger] out@[b]@),
            decreases self.records@.len() - i,
        {
            if self.records[i].name == key {
                let rec = self.records[i].copy_record();
                let ghost rv = rec@;
                proof {
                    assert forall|t: int| 0 <= t < out@.len() implies out@[t].id != rv.id by {
                        let j = choose|j: int| 0 <= j < i && #[trigger] out@[t]@ == self.records@[j]@
                            && self.records@[j].name@ == name@;
                        assert(self.records@[j].id < self.records@[i as int].id);
                    }
                }
                let mut q: usize = 0;
                while q < out.len() && !is_newer(&rec, &out[q])
                    invariant
                        q <= out@.len(),
                        rec@ == rv,
                        forall|t: int| 0 <= t < q ==> newer(#[trigger] out@[t]@, rv),
                        forall|t: int| 0 <= t < out@.len() ==> out@[t].id != rv.id,
                    decreases out@.len() - q,
                {
                    assert(out@[q as int].id != rv.id);
                    q = q + 1;
                }
                let ghost before = out@;
                out.insert(q, rec);
                proof {
                    assert forall|k: int| 0 <= k < out@.len() implies #[trigger] out@[k] == (if k < q {
                        before[k]
                    } else if k == q {
                        out@[q as int]
                    } else {
                        before[k - 1]
                    }) by {}
                    assert(out@[q as int]@ == rv);
                    assert forall|t: int| 0 <= t < out@.len() implies exists|j: int| 0 <= j < i + 1 && #[trigger] out@[t]@ == self.records@[j]@
                        && self.records@[j].name@ == name@ by {
                        if t == q {
                            assert(out@[t]@ == self.records@[i as int]@);
                        } else {
                            let bt = if t < q { t } else { t - 1 };
                            assert(out@[t] == before[bt]);
                            let j = choose|j: int| 0 <= j < i && #[trigger] before[bt]@ == self.records@[j]@
                                && self.records@[j].name@ == name@;
                            assert(out@[t]@ == self.records@[j]@);
                        }
                    }
                    assert forall|j: int| 0 <= j < i + 1 && #[trigger] self.records@[j].name@ == name@ implies exists|t: int|
                        0 <= t < out@.len() && #[trigger] out@[t].id == self.records@[j].id by {
                        if j == i {
                            assert(out@[q as int].id == self.records@[j].id);
                        } else {
                            let t = choose|t: int| 0 <= t < before.len() && #[trigger] before[t].id == self.records@[j].id;
                            if t < q {
                                assert(out@[t].id == self.records@[j].id);
                            } else {
                                assert(out@[t + 1].id == self.records@[j].id);
                            }
                        }
                    }
                    assert forall|a: int, b: int| 0 <= a < b < out@.len() implies newer(#[trigger] out@[a]@, #[trigger] out@[b]@) by {
                        if b < q {
                            assert(newer(before[a]@, before[b]@));
                        } else if b == q {
                            assert(newer(before[a]@, rv));
                        } else if a < q {
                            assert(newer(before[a]@, rv));
                            assert(newer(rv, before[q as int]@));
                            if q < b - 1 {
                                assert(newer(before[q as int]@, before[b - 1]@));
                            }
                        } else if a == q {
                            assert(newer(rv, before[q as int]@));
                            if q < b - 1 {
                                assert(newer(before[q as int]@, before[b - 1]@));
                            }
                        } else {
                            assert(newer(before[a - 1]@, before[b - 1]@));
                        }
                    }
                }
            }
            i = i + 1;
        }
        proof {
            let s = site_views(out@);
            let sel = |r: SiteModel| r.name == name@;
            assert forall|j: int| 0 <= j < s.len() implies self@.contains_key(#[trigger] s[j].id) && self@[s[j].id] == s[j] && sel(s[j]) by {
                let k = choose|k: int| 0 <= k < self.records@.len() && #[trigger] out@[j]@ == self.records@[k]@
                    && self.records@[k].name@ == name@;
                assert(s[j] == out@[j]@);
                assert(self.sites@.contains_key(self.records@[k].id));
            }
            assert forall|id: u128| #[trigger] self@.contains_key(id) && sel(self@[id]) implies exists|j: int| 0 <= j < s.len() && #[trigger] s[j].id == id by {
                let k = choose|k: int| 0 <= k < self.records@.len() && #[trigger] self.records@[k].id == id;
                assert(self.sites@.contains_key(self.records@[k].id));
                assert(self.records@[k].name@ == name@);
                let t = choose|t: int| 0 <= t < out@.len() && #[trigger] out@[t].id == self.records@[k].id;
                assert(s[t] == out@[t]@);
            }
            assert forall|a: int, b: int| 0 <= a < b < s.len() implies newer(#[trigger] s[a], #[trigger] s[b]) by {
                assert(s[a] == out@[a]@);
                assert(s[b] == out@[b]@);
            }
        }
        out
    }

    /// `{files}/{segment}`: where the tree named `segment` lives.
    pub fn get_site_files_path_str(&self, segment: &str) -> (r: String)
        ensures
            r@ == files_path(self.files_base(), segment@),
    {
        proof {
            reveal_strlit("/");
        }
        let mut r = self.site_files_path.clone();
        r.append("/");
        r.append(segment);
        r
    }

    /// `{files}/{id}`: where a site's identifier tree lives.
    pub fn get_site_files_path(&self, id: u128) -> (r: String)
        ensures
            r@ == files_path(self.files_base(), uuid_text(id)),
    {
        let text = uuid_string(id);
        self.get_site_files_path_str(text.as_str())
    }

    /// An account may be deleted only once it owns no site.
    pub fn check_account_deletable(&self, user_id: u128) -> (r: Result<(), AppError>)
        requires
            self.wf(),
        ensures
            r is Err <==> exists|id: u128| #[trigger] self@.contains_key(id) && self@[id].owner_id == user_id,
            r matches Err(e) ==> e is UserDeletionBlocked,
    {
        let owned = self.list_by_owner(user_id);
        if owned.len() > 0 {
            assert(site_views(owned@)[0] == owned@[0]@);
            assert(self@.contains_key(site_views(owned@)[0].id));
            return Err(AppError::UserDeletionBlocked);
        }
        proof {
            assert forall|id: u128| #[trigger] self@.contains_key(id) implies self@[id].owner_id != user_id by {
                if self@[id].owner_id == user_id {
                    let j = choose|j: int| 0 <= j < site_views(owned@).len() && #[trigger] site_views(owned@)[j].id == id;
                }
            }
        }
        Ok(())
    }

    /// Changes a site's description on behalf of `user_id`, who must own it.
    pub fn update_description(&mut self, id: u128, user_id: u128, description: String) -> (r: Result<Site, AppError>)
        requires
            old(self).wf(),
        ensures
            final(self).wf(),
            final(self).files_base() == old(self).files_base(),
            !old(self)@.contains_key(id) ==> (r matches Err(e) && e is NotFound) && final(self)@ == old(self)@,
            old(self)@.contains_key(id) && old(self)@[id].owner_id != user_id ==> (r matches Err(e)
                && e is AuthorizationFailed) && final(self)@ == old(self)@,
            old(self)@.contains_key(id) && old(self)@[id].owner_id == user_id ==> (r matches Ok(s) && s@ == (SiteModel {
                description: description@,
                ..old(self)@[id]
            }) && final(self)@ == old(self)@.insert(id, s@)),
    {
        let mut site = match self.get(id) {
            Some(s) => s,
            None => {
                return Err(AppError::NotFound);
            },
        };
        if site.owner_id != user_id {
            return Err(AppError::AuthorizationFailed);
        }
        site.description = description;
        let copy = site.copy_record();
        let res = self.update(site);
        assert(res is Ok);
        Ok(copy)
    }

    /// Deletes a site on behalf of `user_id`, who must own it; returns the
    /// removed record.
    pub fn delete_owned(&mut self, id: u128, user_id: u128) -> (r: Result<Site, AppError>)
        requires
            old(self).wf(),
        ensures
            final(self).wf(),
            final(self).files_base() == old(self).files_base(),
            !old(self)@.contains_key(id) ==> (r matches Err(e) && e is NotFound) && final(self)@ == old(self)@,
            old(self)@.contains_key(id) && old(self)@[id].owner_id != user_id ==> (r matches Err(e)
                && e is AuthorizationFailed) && final(self)@ == old(self)@,
            old(self)@.contains_key(id) && old(self)@[id].owner_id == user_id ==> (r matches Ok(s) && s@ == old(self)@[id]
                && final(self)@ == old(self)@.remove(id)),
    {
        match self.get(id) {
            Some(s) => {
                if s.owner_id != user_id {
                    return Err(AppError::AuthorizationFailed);
                }
            },
            None => {
                return Err(AppError::NotFound);
            },
        }
        match self.delete(id) {
            Some(removed) => Ok(removed),
            None => Err(AppError::NotFound),
        }
    }
}

/// The latest record by a name has the largest creation time among the
/// records of that name.
pub proof fn lemma_latest_has_max_created_at(m: Map<u128, SiteModel>, name: Seq<char>, r: SiteModel)
    requires
        is_latest_by_name(m, name, Some(r)),
    ensures
        forall|id: u128| #[trigger] m.contains_key(id) && m[id].name == name ==> m[id].created_at <= r.created_at,
{
    assert forall|id: u128| #[trigger] m.contains_key(id) && m[id].name == name implies m[id].created_at <= r.created_at by {
        if id != r.id {
            assert(newer(r, m[id]));
        }
    }
}

/// A re-upload under a name adds a record under a new identifier and keeps
/// every earlier version; when it is newer than all of them, it is the latest
/// by that name.
pub proof fn lemma_reupload_is_latest(m: Map<u128, SiteModel>, s: SiteModel)
    requires
        !m.contains_key(s.id),
        forall|id: u128| #[trigger] m.contains_key(id) && m[id].name == s.name ==> newer(s, m[id]),
    ensures
        forall|id: u128| #[trigger] m.contains_key(id) ==> m.insert(s.id, s).contains_key(id) && m.insert(s.id, s)[id] == m[id],
        m.insert(s.id, s).contains_key(s.id),
        is_latest_by_name(m.insert(s.id, s), s.name, Some(s)),
{
    let m2 = m.insert(s.id, s);
    assert forall|id: u128| #[trigger] m2.contains_key(id) && m2[id].name == s.name && id != s.id implies newer(s, m2[id]) by {
        assert(m.contains_key(id));
    }
}

/// After a site is deleted, no listing of its owner's sites holds it.
pub proof fn lemma_deleted_site_unlisted(m: Map<u128, SiteModel>, id: u128, owner: u128, s: Seq<SiteModel>)
    requires
        is_owner_listing(m.remove(id), owner, s),
    ensures
        forall|j: int| 0 <= j < s.len() ==> #[trigger] s[j].id != id,
{
    assert forall|j: int| 0 <= j < s.len() implies #[trigger] s[j].id != id by {
        assert(m.remove(id).contains_key(s[j].id));
    }
}

} // verus!
