//! Where the MXL library and its sources are found.
use std::path::PathBuf;
use vstd::prelude::*;
use vstd::string::StringExecFns;

verus! {

/// `std::path::PathBuf`, of which only [`path_text`] is known.
#[verifier::external_type_specification]
#[verifier::external_body]
pub struct ExPathBuf(PathBuf);

/// The text of a path.
pub uninterp spec fn path_text(path: PathBuf) -> Seq<char>;

/// `PathBuf::from` on a string slice: the path holds the text as it stands.
#[verifier::external_body]
fn path_from_str(text: &str) -> (path: PathBuf)
    ensures
        path_text(path) == text@,
{
    PathBuf::from(text)
}

/// The name under which the system loader finds the MXL library.
pub fn get_mxl_so_path() -> (path: PathBuf)
    ensures
        path_text(path) == "libmxl.so"@,
{
    path_from_str("libmxl.so")
}

/// The root of the source tree, as the build found it: `mxl_repo_root` is the constant that
/// [`constants_source`] writes down.
pub fn get_mxl_repo_root(mxl_repo_root: &str) -> (path: PathBuf)
    ensures
        path_text(path) == mxl_repo_root@,
{
    path_from_str(mxl_repo_root)
}

/// The source file that the build generates: one constant, the root of the source tree.
pub fn constants_source(repo_root: &str) -> (source: String)
    ensures
        source@ == "pub const MXL_REPO_ROOT: &str = \""@ + repo_root@ + "\";\n"@,
{
    let mut source = String::new();
    source.append("pub const MXL_REPO_ROOT: &str = \"");
    source.append(repo_root);
    source.append("\";\n");
    source
}

} // verus!
