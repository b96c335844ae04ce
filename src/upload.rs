use vstd::prelude::*;
use vstd::string::*;
use crate::archive::{entry_components, is_unsafe_entry_path, path_components, strings_view};
use crate::deploy::SiteUploadParams;
use crate::error::AppError;
use crate::ids::{parse_uuid, parsed_uuid};
use crate::site_name::{is_valid_site_name, validate_site_name};
use crate::store::files_path;

verus! {

/// What an upload field carries, by the field's name.
#[derive(Debug, Clone, Copy, PartialEq, Eq, Structural)]
pub enum FieldRole {
    /// `uuid`: the site's identifier, as text.
    SiteId,
    /// `siteName`: the name to publish under.
    SiteName,
    /// `site`: the archive, as a file.
    Archive,
    /// Any other field, which is skipped.
    Ignored,
}

pub open spec fn role_of(name: Seq<char>) -> FieldRole {
    if name == seq!['u', 'u', 'i', 'd'] {
        FieldRole::SiteId
    } else if name == seq!['s', 'i', 't', 'e', 'N', 'a', 'm', 'e'] {
        FieldRole::SiteName
    } else if name == seq!['s', 'i', 't', 'e'] {
        FieldRole::Archive
    } else {
        FieldRole::Ignored
    }
}

/// The role of the field called `name`.
pub fn field_role(name: &str) -> (r: FieldRole)
    ensures
        r == role_of(name@),
{
    proof {
        reveal_strlit("uuid");
        reveal_strlit("siteName");
        reveal_strlit("site");
        assert("uuid"@ =~= seq!['u', 'u', 'i', 'd']);
        assert("siteName"@ =~= seq!['s', 'i', 't', 'e', 'N', 'a', 'm', 'e']);
        assert("site"@ =~= seq!['s', 'i', 't', 'e']);
    }
    let n = String::from_str(name);
    if n == String::from_str("uuid") {
        FieldRole::SiteId
    } else if n == String::from_str("siteName") {
        FieldRole::SiteName
    } else if n == String::from_str("site") {
        FieldRole::Archive
    } else {
        FieldRole::Ignored
    }
}

/// An archive file name that can be stored as one file of the upload
/// directory: a single component that stays below it.
pub open spec fn is_storable_file_name(s: Seq<char>) -> bool {
    !is_unsafe_entry_path(s) && path_components(s).len() == 1
}

/// The fields of one upload collected so far; they may arrive in any order.
pub struct UploadState {
    site_id: Option<u128>,
    site_name: Option<String>,
    archive_filename: Option<String>,
    archive_path: Option<String>,
}

impl UploadState {
    pub closed spec fn site_id_seen(&self) -> Option<u128> {
        self.site_id
    }

    pub closed spec fn site_name_seen(&self) -> Option<Seq<char>> {
        match self.site_name {
            Some(s) => Some(s@),
            None => None,
        }
    }

    pub closed spec fn archive_seen(&self) -> Option<(Seq<char>, Seq<char>)> {
        match (self.archive_filename, self.archive_path) {
            (Some(f), Some(p)) => Some((f@, p@)),
            _ => None,
        }
    }

    pub closed spec fn wf(&self) -> bool {
        &&& self.archive_filename is Some <==> self.archive_path is Some
        &&& self.site_name matches Some(n) ==> is_valid_site_name(n@)
    }

    /// No field seen yet.
    pub fn new() -> (r: UploadState)
        ensures
            r.wf(),
            r.site_id_seen() is None,
            r.site_name_seen() is None,
            r.archive_seen() is None,
    {
        UploadState { site_id: None, site_name: None, archive_filename: None, archive_path: None }
    }

    /// Takes the `uuid` field: text that must parse as an identifier.
    pub fn accept_site_id(&mut self, text: &str) -> (r: Result<(), AppError>)
        requires
            old(self).wf(),
        ensures
            final(self).wf(),
            final(self).site_name_seen() == old(self).site_name_seen(),
            final(self).archive_seen() == old(self).archive_seen(),
            match parsed_uuid(text@) {
                Some(v) => r is Ok && final(self).site_id_seen() == Some(v),
                None => (r matches Err(e) && e is InvalidInput) && final(self).site_id_seen() == old(self).site_id_seen(),
            },
    {
        match parse_uuid(text) {
            Some(v) => {
                self.site_id = Some(v);
                Ok(())
            },
            None => Err(AppError::InvalidInput(String::from_str("siteId is not a valid UUID"))),
        }
    }

    /// Takes the `siteName` field, refusing at once a name outside the slug pattern.
    pub fn accept_site_name(&mut self, text: &str) -> (r: Result<(), AppError>)
        requires
            old(self).wf(),
        ensures
            final(self).wf(),
            final(self).site_id_seen() == old(self).site_id_seen(),
            final(self).archive_seen() == old(self).archive_seen(),
            is_valid_site_name(text@) ==> r is Ok && final(self).site_name_seen() == Some(text@),
            !is_valid_site_name(text@) ==> (r matches Err(e) && e is InvalidName) && final(self).site_name_seen()
                == old(self).site_name_seen(),
    {
        validate_site_name(text)?;
        self.site_name = Some(String::from_str(text));
        Ok(())
    }

    /// Takes the `site` field's file name and returns where, under
    /// `upload_dir`, its contents are to be streamed.
    pub fn accept_archive(&mut self, file_name: Option<&str>, upload_dir: &str) -> (r: Result<String, AppError>)
        requires
            old(self).wf(),
        ensures
            final(self).wf(),
            final(self).site_id_seen() == old(self).site_id_seen(),
            final(self).site_name_seen() == old(self).site_name_seen(),
            match file_name {
                Some(f) if is_storable_file_name(f@) => r matches Ok(p) && p@ == files_path(upload_dir@, path_components(f@)[0])
                    && final(self).archive_seen() == Some((path_components(f@)[0], p@)),
                _ => (r matches Err(e) && e is InvalidInput) && final(self).archive_seen() == old(self).archive_seen(),
            },
    {
        let f = match file_name {
            Some(f) => f,
            None => {
                return Err(AppError::InvalidInput(String::from_str("Uploaded file must have a filename")));
            },
        };
        let comps = match entry_components(f) {
            Ok(c) => c,
            Err(_) => {
                return Err(AppError::InvalidInput(String::from_str("Uploaded file name is not a plain file name")));
            },
        };
        if comps.len() != 1 {
            return Err(AppError::InvalidInput(String::from_str("Uploaded file name is not a plain file name")));
        }
        assert(strings_view(comps@)[0] == comps@[0]@);
        let name = comps[0].clone();
        proof {
            reveal_strlit("/");
        }
        let mut path = String::from_str(upload_dir);
        path.append("/");
        path.append(name.as_str());
        let r = path.clone();
        self.archive_filename = Some(name);
        self.archive_path = Some(path);
        Ok(r)
    }

    /// Ends the upload: every required field must have arrived; the first
    /// missing one, in the order `uuid`, `siteName`, `site`, is reported.
    pub fn finish(&self, user_id: u128) -> (r: Result<SiteUploadParams, AppError>)
        requires
            self.wf(),
        ensures
            r is Ok <==> self.site_id_seen() is Some && self.site_name_seen() is Some && self.archive_seen() is Some,
            r matches Err(e) ==> e matches AppError::MissingField(f) && f@ == (if self.site_id_seen() is None {
                seq!['u', 'u', 'i', 'd']
            } else if self.site_name_seen() is None {
                seq!['s', 'i', 't', 'e', 'N', 'a', 'm', 'e']
            } else {
                seq!['s', 'i', 't', 'e']
            }),
            r matches Ok(p) ==> {
                &&& self.site_id_seen() == Some(p.site_id)
                &&& self.site_name_seen() == Some(p.site_name@)
                &&& is_valid_site_name(p.site_name@)
                &&& self.archive_seen() == Some((p.archive_filename@, p.archive_path@))
                &&& p.user_id == user_id
            },
    {
        proof {
            reveal_strlit("uuid");
            reveal_strlit("siteName");
            reveal_strlit("site");
            assert("uuid"@ =~= seq!['u', 'u', 'i', 'd']);
            assert("siteName"@ =~= seq!['s', 'i', 't', 'e', 'N', 'a', 'm', 'e']);
            assert("site"@ =~= seq!['s', 'i', 't', 'e']);
        }
        let site_id = match self.site_id {
            Some(v) => v,
            None => {
                return Err(AppError::MissingField(String::from_str("uuid")));
            },
        };
        let site_name = match &self.site_name {
            Some(n) => n.clone(),
            None => {
                return Err(AppError::MissingField(String::from_str("siteName")));
            },
        };
        match (&self.archive_filename, &self.archive_path) {
            (Some(f), Some(p)) => Ok(SiteUploadParams {
                site_id,
                site_name,
                user_id,
                archive_filename: f.clone(),
                archive_path: p.clone(),
            }),
            _ => Err(AppError::MissingField(String::from_str("site"))),
        }
    }
}

} // verus!
