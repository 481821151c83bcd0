use mirage::plugin::{
    check_abi, check_apply, check_init, file_extension, file_stem, has_extension, is_plugin_file,
    plugin_display_name, PluginError,
};

#[test]
fn extensions_as_path_sees_them() {
    assert_eq!(file_extension("libfoo.so"), Some("so".to_string()));
    assert_eq!(file_extension("archive.tar.gz"), Some("gz".to_string()));
    assert_eq!(file_extension(".bashrc"), None);
    assert_eq!(file_extension("README"), None);
    assert_eq!(file_extension("trailing."), Some(String::new()));
    assert_eq!(file_extension(".."), None);
}

#[test]
fn stems_as_path_sees_them() {
    assert_eq!(file_stem("libfoo.so"), Some("libfoo".to_string()));
    assert_eq!(file_stem("archive.tar.gz"), Some("archive.tar".to_string()));
    assert_eq!(file_stem(".bashrc"), Some(".bashrc".to_string()));
    assert_eq!(file_stem("README"), Some("README".to_string()));
    assert_eq!(file_stem(".."), Some("..".to_string()));
}

#[test]
fn only_shared_objects_are_plugins() {
    assert!(is_plugin_file("libspoof.so"));
    assert!(!is_plugin_file("libspoof.so.1"));
    assert!(!is_plugin_file(".so"));
    assert!(has_extension("london.yaml", "yaml"));
    assert!(!has_extension("london.yml", "yaml"));
}

#[test]
fn plugin_name_falls_back_to_the_file_stem() {
    assert_eq!(plugin_display_name(Some("kernel-spoofer"), "libk.so"), "kernel-spoofer");
    assert_eq!(plugin_display_name(None, "libk.so"), "libk");
}

#[test]
fn abi_and_return_codes() {
    assert!(check_abi(1).is_ok());
    assert!(matches!(check_abi(2), Err(PluginError::AbiMismatch { found: 2 })));
    assert!(check_init("p", 0).is_ok());
    match check_init("p", -1) {
        Err(PluginError::InitFailed { name, code }) => {
            assert_eq!(name, "p");
            assert_eq!(code, -1);
        }
        other => panic!("{:?}", other),
    }
    match check_apply("q", 3) {
        Err(PluginError::ApplyFailed { name, code }) => {
            assert_eq!(name, "q");
            assert_eq!(code, 3);
        }
        other => panic!("{:?}", other),
    }
    assert!(check_apply("q", 0).is_ok());
}

#[test]
fn an_empty_name_has_neither_stem_nor_extension() {
    assert_eq!(file_stem(""), None);
    assert_eq!(file_extension(""), None);
    assert_eq!(plugin_display_name(None, ""), "unknown");
}
