use gst_mxl::config::{constants_source, get_mxl_repo_root, get_mxl_so_path};
use std::path::Path;

#[test]
fn library_is_found_by_the_loader() {
    assert_eq!(get_mxl_so_path().as_path(), Path::new("libmxl.so"));
}

#[test]
fn repo_root_is_the_constant() {
    assert_eq!(get_mxl_repo_root("/src/mxl").as_path(), Path::new("/src/mxl"));
}

#[test]
fn constant_is_written_as_source() {
    assert_eq!(
        constants_source("/src/mxl"),
        "pub const MXL_REPO_ROOT: &str = \"/src/mxl\";\n"
    );
}
