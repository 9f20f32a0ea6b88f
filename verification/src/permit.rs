//! Leave to do something with a file or directory.

use crate::account::{User, UserModel};
use crate::path;
use crate::percent;
use vstd::prelude::*;

verus! {

/// Leave for a user to do something with a virtual path, with the path on disk
/// that stands for it.
#[derive(Debug)]
pub struct Permit {
    pub user: User,
    pub path: String,
    pub full_path: String,
}

/// Leave for a user to do something with a virtual path.
#[verifier::ext_equal]
pub struct PermitModel {
    pub user: UserModel,
    pub path: Seq<char>,
    pub full_path: Seq<char>,
}

impl View for Permit {
    type V = PermitModel;

    open spec fn view(&self) -> PermitModel {
        PermitModel { user: self.user@, path: self.path@, full_path: self.full_path@ }
    }
}

/// Leave for a user to do something with a virtual path below `root`.
pub open spec fn permitted(user: UserModel, path: Seq<char>, root: Seq<char>) -> PermitModel {
    PermitModel { user, path, full_path: path::located(root, path) }
}

/// The path on disk that stands for a virtual path. The names of the path are
/// taken as they are.
pub fn locate(root: &str, path: &str) -> (r: String)
    ensures
        r@ == path::located(root@, path@),
{
    proof {
        path::lemma_cleaned(path@);
    }
    match path::safe_join(root, &percent::escape(path)) {
        Ok(full_path) => full_path,
        Err(_) => root.to_owned(),
    }
}

/// Leave for a user to do something with a virtual path below `root`.
pub fn permit(user: User, path: String, root: &str) -> (r: Permit)
    ensures
        r@ == permitted(user@, path@, root@),
{
    let full_path: String = locate(root, &path);
    Permit { user, path, full_path }
}

} // verus!
