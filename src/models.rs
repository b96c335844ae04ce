use vstd::prelude::*;
use vstd::string::*;
use crate::ids::{uuid_string, uuid_text};

verus! {

/// One deployed version of a named site. Times are microseconds since the
/// Unix epoch.
#[derive(Debug, Clone)]
pub struct Site {
    pub id: u128,
    pub owner_id: u128,
    pub name: String,
    pub domain: Option<String>,
    pub description: String,
    pub created_at: i64,
}

/// The mathematical value of a [`Site`].
pub ghost struct SiteModel {
    pub id: u128,
    pub owner_id: u128,
    pub name: Seq<char>,
    pub domain: Option<Seq<char>>,
    pub description: Seq<char>,
    pub created_at: i64,
}

pub open spec fn opt_string_view(o: Option<String>) -> Option<Seq<char>> {
    match o {
        Some(s) => Some(s@),
        None => None,
    }
}

impl View for Site {
    type V = SiteModel;

    open spec fn view(&self) -> SiteModel {
        SiteModel {
            id: self.id,
            owner_id: self.owner_id,
            name: self.name@,
            domain: opt_string_view(self.domain),
            description: self.description@,
            created_at: self.created_at,
        }
    }
}

fn copy_opt_string(o: &Option<String>) -> (r: Option<String>)
    ensures
        opt_string_view(r) == opt_string_view(*o),
{
    match o {
        Some(s) => Some(s.clone()),
        None => None,
    }
}

impl Site {
    /// A new site record without a custom domain.
    pub fn new(id: u128, owner_id: u128, name: String, description: String, created_at: i64) -> (r: Site)
        ensures
            r@ == (SiteModel {
                id,
                owner_id,
                name: name@,
                domain: None,
                description: description@,
                created_at,
            }),
    {
        Site { id, owner_id, name, domain: None, description, created_at }
    }

    /// A field-by-field copy.
    pub fn copy_record(&self) -> (r: Site)
        ensures
            r@ == self@,
    {
        Site {
            id: self.id,
            owner_id: self.owner_id,
            name: self.name.clone(),
            domain: copy_opt_string(&self.domain),
            description: self.description.clone(),
            created_at: self.created_at,
        }
    }
}

/// The path under which a site is served, relative to the base URL:
/// `/sites/{segment}/`.
pub open spec fn site_path(segment: Seq<char>) -> Seq<char> {
    seq!['/', 's', 'i', 't', 'e', 's', '/'] + segment + seq!['/']
}

/// A site as shown to clients, with both of its URLs.
#[derive(Debug, Clone)]
pub struct SiteResponse {
    pub id: u128,
    pub name: String,
    pub domain: Option<String>,
    pub description: String,
    pub created_at: i64,
    /// The URL by name: `{base}/sites/{name}/`.
    pub url: String,
    /// The URL by identifier: `{base}/sites/{id}/`.
    pub url_by_id: String,
}

/// `{base}/sites/{segment}/`.
pub fn site_url(base_url: &str, segment: &str) -> (r: String)
    ensures
        r@ == base_url@ + site_path(segment@),
{
    proof {
        reveal_strlit("/sites/");
        reveal_strlit("/");
    }
    let mut r = String::from_str(base_url);
    r.append("/sites/");
    r.append(segment);
    r.append("/");
    assert(r@ =~= base_url@ + site_path(segment@));
    r
}

impl SiteResponse {
    /// The client view of a site, with its URLs under `base_url`.
    pub fn from_site(site: Site, base_url: &str) -> (r: SiteResponse)
        ensures
            r.id == site.id,
            r.name@ == site.name@,
            opt_string_view(r.domain) == opt_string_view(site.domain),
            r.description@ == site.description@,
            r.created_at == site.created_at,
            r.url@ == base_url@ + site_path(site.name@),
            r.url_by_id@ == base_url@ + site_path(uuid_text(site.id)),
    {
        let url = site_url(base_url, site.name.as_str());
        let id_text = uuid_string(site.id);
        let url_by_id = site_url(base_url, id_text.as_str());
        SiteResponse {
            id: site.id,
            name: site.name,
            domain: site.domain,
            description: site.description,
            created_at: site.created_at,
            url,
            url_by_id,
        }
    }
}

/// An account that owns sites. Times are microseconds since the Unix epoch.
#[derive(Debug, Clone)]
pub struct User {
    pub id: u128,
    pub username: String,
    pub password: String,
    pub created_at: i64,
}

impl User {
    /// A new account record.
    pub fn new(id: u128, username: String, password: String, created_at: i64) -> (r: User)
        ensures
            r.id == id,
            r.username@ == username@,
            r.password@ == password@,
            r.created_at == created_at,
    {
        User { id, username, password, created_at }
    }
}

/// Body of a registration request.
#[derive(Debug, Clone)]
pub struct RegisterRequest {
    pub username: String,
    pub password: String,
}

/// Body of a login request.
#[derive(Debug, Clone)]
pub struct LoginRequest {
    pub username: String,
    pub password: String,
}

/// Body of a site update request.
#[derive(Debug, Clone)]
pub struct UpdateSiteRequest {
    pub description: String,
}

/// The claims carried by an access token.
#[derive(Debug, Clone)]
pub struct Claims {
    /// The user's identifier, as text.
    pub sub: String,
    pub username: String,
    /// Expiry, in seconds since the Unix epoch.
    pub exp: usize,
}

} // verus!
