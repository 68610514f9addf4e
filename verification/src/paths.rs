//! Where Bakehouse keeps its state: everything lives under one application
//! support directory.

use crate::text::{chars_of, extend_str, string_of};
use vstd::prelude::*;

verus! {

/// `PathBuf::join` of a base directory and a relative file name: a separator
/// is inserted unless the base is empty or already ends with one.
pub open spec fn join_path(base: Seq<char>, name: Seq<char>) -> Seq<char> {
    if base.len() == 0 {
        name
    } else if base.last() == '/' {
        base + name
    } else {
        base + seq!['/'] + name
    }
}

pub fn path_join(base: &str, name: &str) -> (r: String)
    ensures
        r@ == join_path(base@, name@),
{
    let mut v = chars_of(base);
    if v.len() > 0 && v[v.len() - 1] != '/' {
        v.push('/');
    }
    extend_str(&mut v, name);
    string_of(v.as_slice())
}

pub struct AppPaths {
    pub app_support: String,
}

impl AppPaths {
    pub fn new(app_support: String) -> (r: Self)
        ensures
            r.app_support == app_support,
    {
        AppPaths { app_support }
    }

    /// `--app-root` for the bundled container runtime (images, containers, volumes).
    pub fn container_root(&self) -> (r: String)
        ensures
            r@ == join_path(self.app_support@, "container-root"@),
    {
        path_join(self.app_support.as_str(), "container-root")
    }

    pub fn container_logs(&self) -> (r: String)
        ensures
            r@ == join_path(self.app_support@, "container-logs"@),
    {
        path_join(self.app_support.as_str(), "container-logs")
    }

    pub fn logs(&self) -> (r: String)
        ensures
            r@ == join_path(self.app_support@, "logs"@),
    {
        path_join(self.app_support.as_str(), "logs")
    }

    pub fn instances_file(&self) -> (r: String)
        ensures
            r@ == join_path(self.app_support@, "instances.json"@),
    {
        path_join(self.app_support.as_str(), "instances.json")
    }

    pub fn settings_file(&self) -> (r: String)
        ensures
            r@ == join_path(self.app_support@, "settings.json"@),
    {
        path_join(self.app_support.as_str(), "settings.json")
    }

    pub fn history_db(&self) -> (r: String)
        ensures
            r@ == join_path(self.app_support@, "history.db"@),
    {
        path_join(self.app_support.as_str(), "history.db")
    }

    pub fn staging(&self) -> (r: String)
        ensures
            r@ == join_path(self.app_support@, "staging"@),
    {
        path_join(self.app_support.as_str(), "staging")
    }
}

} // verus!
