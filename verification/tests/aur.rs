use aur_scanner_core::aur::{
    check_fetched, clone_args, clone_environment, clone_outcome, find_install_script,
    install_script_candidates, installed_from_listing, multiple_info_url, official_args, package_from_response,
    package_info_url, packages_from_response, search_url, AurPackageInfo, RpcResponse,
};
use aur_scanner_core::error::ScanError;

fn response(names: &[&str]) -> RpcResponse {
    RpcResponse {
        response_type: "multiinfo".to_string(),
        resultcount: names.len() as i32,
        results: names
            .iter()
            .map(|n| AurPackageInfo { name: n.to_string(), ..Default::default() })
            .collect(),
        error: None,
    }
}

#[test]
fn urls_of_requests() {
    assert_eq!(package_info_url("paru"), "https://aur.archlinux.org/rpc/v5/info/paru");
    assert_eq!(search_url("paru"), "https://aur.archlinux.org/rpc/v5/search/paru");
    assert_eq!(
        multiple_info_url(&vec!["a".to_string(), "b".to_string()]).as_deref(),
        Some("https://aur.archlinux.org/rpc/v5/info?arg[]=a&arg[]=b")
    );
    assert_eq!(multiple_info_url(&Vec::new()), None);
}

#[test]
fn a_response_gives_its_first_package() {
    let info = package_from_response(response(&["paru", "yay"]), "paru").unwrap();
    assert_eq!(info.name, "paru");
    let all = packages_from_response(response(&["paru", "yay"])).unwrap();
    assert_eq!(all.len(), 2);
    assert!(packages_from_response(response(&[])).unwrap().is_empty());
}

#[test]
fn a_package_that_is_not_there() {
    match package_from_response(response(&[]), "x") {
        Err(ScanError::NotFound(m)) => assert_eq!(m, "Package 'x' not found in AUR"),
        _ => panic!("no such package"),
    }
}

#[test]
fn errors_in_responses() {
    let mut unknown = response(&["a"]);
    unknown.response_type = "error".to_string();
    match packages_from_response(unknown) {
        Err(ScanError::Network(m)) => assert_eq!(m, "AUR API error: Unknown error"),
        _ => panic!("an error"),
    }
    let mut named = response(&[]);
    named.error = Some("Too many package results.".to_string());
    match package_from_response(named, "x") {
        Err(ScanError::Network(m)) => assert_eq!(m, "AUR API error: Too many package results."),
        _ => panic!("an error"),
    }
}

#[test]
fn clones_are_hardened() {
    assert_eq!(
        clone_args("--upload-pack=x"),
        vec![
            "-c",
            "core.hooksPath=/dev/null",
            "-c",
            "protocol.file.allow=never",
            "-c",
            "protocol.ext.allow=never",
            "-c",
            "core.symlinks=false",
            "clone",
            "--depth=1",
            "--no-tags",
            "--no-recurse-submodules",
            "--",
            "https://aur.archlinux.org/--upload-pack=x.git",
            ".",
        ]
    );
    let never_prompt = ("GIT_TERMINAL_PROMPT".to_string(), "0".to_string());
    assert_eq!(clone_environment(), vec![never_prompt]);
    assert!(clone_outcome(true, "warning").is_ok());
    match clone_outcome(false, "fatal") {
        Err(ScanError::Network(m)) => assert_eq!(m, "Failed to clone AUR repo: fatal"),
        _ => panic!("the clone failed"),
    }
    assert!(check_fetched(true).is_ok());
    match check_fetched(false) {
        Err(ScanError::NotFound(m)) => assert_eq!(m, "PKGBUILD not found in cloned repository"),
        _ => panic!("nothing was fetched"),
    }
}

#[test]
fn names_of_install_scripts() {
    assert_eq!(
        install_script_candidates("a-b", None),
        vec!["a-b.install", "install", "a_b.install"]
    );
    let pkgbuild = "install='x.install'\n install=no\ninstall=../etc/passwd\ninstall=\ninstall= \"y z\" ";
    assert_eq!(
        install_script_candidates("p", Some(pkgbuild)),
        vec!["p.install", "install", "p.install", "x.install", "y z"]
    );
}

#[test]
fn the_first_script_that_exists() {
    let names: Vec<String> = vec!["a".to_string(), "b".to_string(), "c".to_string()];
    let found = find_install_script(&names, &vec![false, true, true]);
    assert_eq!(found.as_deref(), Some("b"));
    assert_eq!(find_install_script(&names, &vec![false, false, false]), None);
}

#[test]
fn names_for_pacman_are_no_flags() {
    assert_eq!(official_args("--config"), vec!["-Si", "--", "--config"]);
}

#[test]
fn listings_of_installed_packages() {
    assert_eq!(
        installed_from_listing(true, "paru 2.0-1\n\n  yay\t12\n \n").unwrap(),
        vec!["paru", "yay"]
    );
    match installed_from_listing(false, "") {
        Err(ScanError::Io(e)) => assert_eq!(e.message, "Failed to get foreign packages"),
        _ => panic!("pacman failed"),
    }
}
