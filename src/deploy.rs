use vstd::prelude::*;
use vstd::string::*;
use crate::error::AppError;
use crate::ids::{uuid_string, uuid_text};
use crate::models::{site_path, site_url, Site, SiteModel};
use crate::site_name::{is_valid_site_name, validate_site_name};
use crate::store::{files_path, is_latest_by_name, newer, SiteStorage};

verus! {

/// What an upload hands to the deployment: the site's identifier and name,
/// the uploading user, and where the archive was stored.
#[derive(Debug, Clone)]
pub struct SiteUploadParams {
    pub site_id: u128,
    pub site_name: String,
    pub user_id: u128,
    pub archive_filename: String,
    pub archive_path: String,
}

/// The latest record under `name` belongs to someone other than `owner`.
pub open spec fn name_taken_by_other(m: Map<u128, SiteModel>, name: Seq<char>, owner: u128) -> bool {
    exists|s: SiteModel| #[trigger] is_latest_by_name(m, name, Some(s)) && s.owner_id != owner
}

proof fn lemma_latest_unique(m: Map<u128, SiteModel>, name: Seq<char>, a: SiteModel, b: SiteModel)
    requires
        is_latest_by_name(m, name, Some(a)),
        is_latest_by_name(m, name, Some(b)),
    ensures
        a == b,
{
    if a.id != b.id {
        assert(newer(a, m[b.id]));
        assert(newer(b, m[a.id]));
    }
}

/// Whether `owner` may publish under `name`: a name belongs to whoever owns
/// its latest record; a name without records is free.
pub fn check_name_claim(store: &SiteStorage, name: &str, owner: u128) -> (r: Result<(), AppError>)
    requires
        store.wf(),
    ensures
        r is Err <==> name_taken_by_other(store@, name@, owner),
        r matches Err(e) ==> e matches AppError::NameConflict(n) && n@ == name@,
{
    let latest = store.get_latest_by_name(name);
    match latest {
        Some(s) => {
            if s.owner_id != owner {
                assert(is_latest_by_name(store@, name@, Some(s@)));
                Err(AppError::NameConflict(String::from_str(name)))
            } else {
                proof {
                    if name_taken_by_other(store@, name@, owner) {
                        let t = choose|t: SiteModel| #[trigger] is_latest_by_name(store@, name@, Some(t)) && t.owner_id != owner;
                        lemma_latest_unique(store@, name@, s@, t);
                    }
                }
                Ok(())
            }
        },
        None => {
            proof {
                if name_taken_by_other(store@, name@, owner) {
                    let t = choose|t: SiteModel| #[trigger] is_latest_by_name(store@, name@, Some(t)) && t.owner_id != owner;
                    assert(store@.contains_key(t.id));
                }
            }
            Ok(())
        },
    }
}

/// The substitution that moves self-references from the identifier path to
/// the name path: `/sites/{id}/` becomes `/sites/{name}/`.
pub fn rewrite_rule(site_id: u128, site_name: &str) -> (r: (String, String))
    ensures
        r.0@ == site_path(uuid_text(site_id)),
        r.1@ == site_path(site_name@),
{
    let id_text = uuid_string(site_id);
    let from = site_url("", id_text.as_str());
    let to = site_url("", site_name);
    proof {
        reveal_strlit("");
        assert(""@ + site_path(id_text@) =~= site_path(id_text@));
        assert(""@ + site_path(site_name@) =~= site_path(site_name@));
    }
    (from, to)
}

/// The prefix of a deployment's private extraction directory.
pub open spec fn extract_temp_prefix() -> Seq<char> {
    seq!['.', 'e', 'x', 't', 'r', 'a', 'c', 't', '_', 't', 'e', 'm', 'p', '_']
}

/// The directories and the substitution of one deployment.
#[derive(Debug)]
pub struct DeployPlan {
    /// The identifier tree: the archive as it is.
    pub id_dir: String,
    /// The name tree: the archive with self-references rewritten.
    pub name_dir: String,
    /// Private extraction directory, keyed by the site's identifier.
    pub temp_dir: String,
    /// The substitution applied to the name tree.
    pub rewrite: (String, String),
}

/// Decides, before anything is written, whether a deployment may go ahead
/// and where its trees go. A name outside the slug pattern, a name whose
/// latest record belongs to another owner, and an identifier already stored
/// are refused.
pub fn plan_deploy(store: &SiteStorage, params: &SiteUploadParams) -> (r: Result<DeployPlan, AppError>)
    requires
        store.wf(),
    ensures
        r is Ok <==> is_valid_site_name(params.site_name@) && !name_taken_by_other(
            store@,
            params.site_name@,
            params.user_id,
        ) && !store@.contains_key(params.site_id),
        r matches Err(e) ==> {
            if !is_valid_site_name(params.site_name@) {
                e is InvalidName
            } else if name_taken_by_other(store@, params.site_name@, params.user_id) {
                e matches AppError::NameConflict(n) && n@ == params.site_name@
            } else {
                e is DuplicateId
            }
        },
        r matches Ok(p) ==> {
            &&& p.id_dir@ == files_path(store.files_base(), uuid_text(params.site_id))
            &&& p.name_dir@ == files_path(store.files_base(), params.site_name@)
            &&& p.temp_dir@ == files_path(store.files_base(), extract_temp_prefix() + uuid_text(params.site_id))
            &&& p.rewrite.0@ == site_path(uuid_text(params.site_id))
            &&& p.rewrite.1@ == site_path(params.site_name@)
        },
{
    validate_site_name(params.site_name.as_str())?;
    check_name_claim(store, params.site_name.as_str(), params.user_id)?;
    if store.get(params.site_id).is_some() {
        return Err(AppError::DuplicateId);
    }
    let id_text = uuid_string(params.site_id);
    let id_dir = store.get_site_files_path_str(id_text.as_str());
    let name_dir = store.get_site_files_path_str(params.site_name.as_str());
    proof {
        reveal_strlit(".extract_temp_");
        assert(".extract_temp_"@ =~= extract_temp_prefix());
    }
    let temp_name = String::from_str(".extract_temp_").concat(id_text.as_str());
    let temp_dir = store.get_site_files_path_str(temp_name.as_str());
    let rewrite = rewrite_rule(params.site_id, params.site_name.as_str());
    Ok(DeployPlan { id_dir, name_dir, temp_dir, rewrite })
}

/// The description given to a site created by an upload.
pub open spec fn upload_description() -> Seq<char> {
    seq!['S', 'i', 't', 'e', ' ', 'u', 'p', 'l', 'o', 'a', 'd', 'e', 'd', ' ', 'f', 'r', 'o', 'm', ' ', 'C', 'L', 'I']
}

/// Persists the record of a finished deployment, as a new version of its
/// name. The name claim is checked again, so a record is never stored under
/// a name whose latest record belongs to another owner.
pub fn save_site_record(
    store: &mut SiteStorage,
    site_id: u128,
    site_name: &str,
    user_id: u128,
    created_at: i64,
) -> (r: Result<Site, AppError>)
    requires
        old(store).wf(),
    ensures
        final(store).wf(),
        final(store).files_base() == old(store).files_base(),
        r is Ok <==> !name_taken_by_other(old(store)@, site_name@, user_id) && !old(store)@.contains_key(site_id),
        r is Err ==> final(store)@ == old(store)@,
        r matches Err(e) ==> if name_taken_by_other(old(store)@, site_name@, user_id) {
            e is NameConflict
        } else {
            e is DuplicateId
        },
        r matches Ok(s) ==> {
            &&& s@ == (SiteModel {
                id: site_id,
                owner_id: user_id,
                name: site_name@,
                domain: None,
                description: upload_description(),
                created_at,
            })
            &&& final(store)@ == old(store)@.insert(site_id, s@)
        },
{
    check_name_claim(store, site_name, user_id)?;
    proof {
        reveal_strlit("Site uploaded from CLI");
        assert("Site uploaded from CLI"@ =~= upload_description());
    }
    let site = Site::new(
        site_id,
        user_id,
        String::from_str(site_name),
        String::from_str("Site uploaded from CLI"),
        created_at,
    );
    let copy = site.copy_record();
    store.create(site)?;
    Ok(copy)
}

} // verus!
