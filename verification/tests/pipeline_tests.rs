use yen::catalog::list_pythons;
use yen::download::{checksum_matches, download, trim_end_str, DownloadOutcome};
use yen::errors::YenError;
use yen::fsmodel::{Counters, FsModel};
use yen::pipeline::{
    create_env, default_python_version, ensure_python, find_or_download_python, install_package,
    shim_script, InstallWorld, SubprocessOutcome,
};
use yen::platform::{_python_bin_path, _venv_binary_path, is_glibc, path_contains, MachineSuffix};
use yen::version::Version;

fn ok_subprocess() -> SubprocessOutcome {
    SubprocessOutcome { success: true, stdout: String::new(), stderr: String::new() }
}

fn failed_subprocess(stderr: &str) -> SubprocessOutcome {
    SubprocessOutcome { success: false, stdout: String::new(), stderr: stderr.to_owned() }
}

fn ok_world() -> InstallWorld {
    InstallWorld { venv: ok_subprocess(), pip: ok_subprocess(), binary_present: true }
}

fn good_download(body: &[u8]) -> DownloadOutcome {
    let bytes = body.to_vec();
    let digest = sha256::digest(&bytes);
    DownloadOutcome {
        content_length: Some(bytes.len() as u64),
        body: bytes,
        checksum_fetch: Some(format!("{digest}\n")),
    }
}

fn gnu_url(version: &str) -> String {
    format!(
        "https://example.invalid/cpython-{version}-x86_64-unknown-linux-gnu-install_only.tar.gz"
    )
}

#[test]
fn checksum_accepts_the_true_digest() {
    let data = b"hello".to_vec();
    // The digest of "hello", as the checksum resource would serve it.
    let fetched = "2cf24dba5fb0a30e26e83b2ac5b9e29e1b161e5c1fa7425e73043362938b9824\n";
    assert!(checksum_matches(&data, fetched));
    assert!(!checksum_matches(&data, "0000000000000000000000000000000000000000000000000000000000000000"));
    let other = b"hellp".to_vec();
    assert!(!checksum_matches(&other, fetched));
}

#[test]
fn trim_end_strips_trailing_whitespace_only() {
    assert_eq!(trim_end_str("abc \n\t\r"), "abc");
    assert_eq!(trim_end_str("  abc"), "  abc");
    assert_eq!(trim_end_str(""), "");
}

#[test]
fn download_writes_and_keeps_a_verified_file() {
    let mut fs = FsModel::new();
    let mut eff = Counters::new();
    let out = good_download(b"archive-bytes");
    let path = download(&mut fs, &mut eff, gnu_url("3.12.4").as_str(), "/cache/3.12.4", &out)
        .unwrap();
    assert_eq!(
        path,
        "/cache/3.12.4/cpython-3.12.4-x86_64-unknown-linux-gnu-install_only.tar.gz"
    );
    assert!(fs.path_exists(path.as_str()));
    assert_eq!(eff.downloads, 1);
}

#[test]
fn download_removes_a_corrupt_file() {
    // A digest that disagrees with the fetched checksum fails the
    // download, and the partial file is gone afterwards.
    let mut fs = FsModel::new();
    let mut eff = Counters::new();
    let out = DownloadOutcome {
        content_length: Some(3),
        body: b"abc".to_vec(),
        checksum_fetch: Some(
            "1111111111111111111111111111111111111111111111111111111111111111".to_owned(),
        ),
    };
    let url = gnu_url("3.12.4");
    let r = download(&mut fs, &mut eff, url.as_str(), "/cache/3.12.4", &out);
    assert!(matches!(r, Err(YenError::ChecksumMismatch)));
    assert!(!fs.path_exists(
        "/cache/3.12.4/cpython-3.12.4-x86_64-unknown-linux-gnu-install_only.tar.gz"
    ));
}

#[test]
fn download_with_failed_checksum_fetch_keeps_the_file() {
    let mut fs = FsModel::new();
    let mut eff = Counters::new();
    let out = DownloadOutcome {
        content_length: Some(3),
        body: b"abc".to_vec(),
        checksum_fetch: None,
    };
    let url = gnu_url("3.12.4");
    let r = download(&mut fs, &mut eff, url.as_str(), "/cache/3.12.4", &out);
    assert!(matches!(r, Err(YenError::Network)));
    assert!(fs.path_exists(
        "/cache/3.12.4/cpython-3.12.4-x86_64-unknown-linux-gnu-install_only.tar.gz"
    ));
    assert_eq!(eff.downloads, 1);
}

#[test]
fn download_requires_a_content_length() {
    let mut fs = FsModel::new();
    let mut eff = Counters::new();
    let out = DownloadOutcome { content_length: None, body: Vec::new(), checksum_fetch: None };
    let r = download(&mut fs, &mut eff, gnu_url("3.12.4").as_str(), "/cache", &out);
    assert!(matches!(r, Err(YenError::MissingContentLength)));
    assert_eq!(eff.downloads, 0);
}

#[test]
fn ensure_python_downloads_once_then_hits_the_cache() {
    // Two runs for the same version: the first downloads and extracts,
    // the second answers identically from the cache with no further
    // effect.
    let suffixes = MachineSuffix::LinuxX64GlibC.get_suffixes();
    let releases = vec![gnu_url("3.12.4"), gnu_url("3.11.9")];
    let catalog = list_pythons(&releases, &suffixes).unwrap();
    let requested = Version::parse("3.12").unwrap();
    let mut fs = FsModel::new();
    let mut eff = Counters::new();
    let dl = good_download(b"interpreter-archive");

    let (v1, p1) = ensure_python(&mut fs, &mut eff, "/pythons", &requested, &catalog, &dl, false)
        .unwrap();
    assert_eq!(v1.to_string(), "3.12.4");
    assert_eq!(p1, "/pythons/3.12.4/python/bin/python3");
    assert_eq!(eff.downloads, 1);
    assert_eq!(eff.extractions, 1);

    let empty_catalog = list_pythons(&Vec::new(), &suffixes).unwrap();
    let bad_dl = DownloadOutcome { content_length: None, body: Vec::new(), checksum_fetch: None };
    let (v2, p2) =
        ensure_python(&mut fs, &mut eff, "/pythons", &requested, &empty_catalog, &bad_dl, false)
            .unwrap();
    assert_eq!(v2.to_string(), "3.12.4");
    assert_eq!(p2, p1);
    assert_eq!(eff.downloads, 1);
    assert_eq!(eff.extractions, 1);
}

#[test]
fn ensure_python_fails_for_an_uncataloged_version() {
    let suffixes = MachineSuffix::LinuxX64GlibC.get_suffixes();
    let catalog = list_pythons(&vec![gnu_url("3.11.9")], &suffixes).unwrap();
    let requested = Version::parse("3.12").unwrap();
    let mut fs = FsModel::new();
    let mut eff = Counters::new();
    let dl = good_download(b"x");
    let r = ensure_python(&mut fs, &mut eff, "/pythons", &requested, &catalog, &dl, false);
    assert!(matches!(r, Err(YenError::VersionNotFound)));
}

#[test]
fn install_twice_runs_pip_once() {
    // Idempotence: the second install without a forced reinstall reports
    // the package as already installed and runs nothing.
    let mut fs = FsModel::new();
    let mut eff = Counters::new();
    let (shim, already) = install_package(
        &mut fs, &mut eff, "/pkgs", "black", "/py/bin/python3", "black", false, false,
        &ok_world(), false,
    )
    .unwrap();
    assert_eq!(shim, "/pkgs/black");
    assert!(!already);
    assert_eq!(eff.pip_installs, 1);
    assert_eq!(eff.venv_creations, 1);

    let (shim2, already2) = install_package(
        &mut fs, &mut eff, "/pkgs", "black", "/py/bin/python3", "black", false, false,
        &ok_world(), false,
    )
    .unwrap();
    assert_eq!(shim2, shim);
    assert!(already2);
    assert_eq!(eff.pip_installs, 1);
    assert_eq!(eff.venv_creations, 1);
}

#[test]
fn forced_reinstall_does_the_work_again() {
    let mut fs = FsModel::new();
    let mut eff = Counters::new();
    let (shim, _) = install_package(
        &mut fs, &mut eff, "/pkgs", "black", "/py/bin/python3", "black", false, false,
        &ok_world(), false,
    )
    .unwrap();
    let (shim2, already2) = install_package(
        &mut fs, &mut eff, "/pkgs", "black", "/py/bin/python3", "black", false, true,
        &ok_world(), false,
    )
    .unwrap();
    assert_eq!(shim2, shim);
    assert!(!already2);
    assert_eq!(eff.pip_installs, 2);
    assert_eq!(eff.venv_creations, 2);
    assert!(fs.path_exists("/pkgs/black"));
    assert!(fs.path_exists("/pkgs/venv_black"));
}

#[test]
fn missing_entry_point_rolls_the_venv_back() {
    // The package manager succeeded but the expected binary is absent:
    // the install fails and the per-package venv no longer exists.
    let mut fs = FsModel::new();
    let mut eff = Counters::new();
    let world =
        InstallWorld { venv: ok_subprocess(), pip: ok_subprocess(), binary_present: false };
    let r = install_package(
        &mut fs, &mut eff, "/pkgs", "foo", "/py/bin/python3", "foo", false, false, &world, false,
    );
    match r {
        Err(YenError::EntryPointMissing { executable, package, suggest_flags }) => {
            assert_eq!(executable, "foo");
            assert_eq!(package, "foo");
            assert!(suggest_flags);
        },
        other => panic!("expected the entry-point error, got {:?}", other.is_ok()),
    }
    assert!(!fs.path_exists("/pkgs/venv_foo"));
    assert!(!fs.path_exists("/pkgs/foo"));
}

#[test]
fn missing_entry_point_with_explicit_binary_does_not_suggest_flags() {
    let mut fs = FsModel::new();
    let mut eff = Counters::new();
    let world =
        InstallWorld { venv: ok_subprocess(), pip: ok_subprocess(), binary_present: false };
    let r = install_package(
        &mut fs, &mut eff, "/pkgs", "foo", "/py/bin/python3", "foo-cli", false, false, &world,
        false,
    );
    match r {
        Err(YenError::EntryPointMissing { suggest_flags, .. }) => assert!(!suggest_flags),
        other => panic!("expected the entry-point error, got {:?}", other.is_ok()),
    }
}

#[test]
fn failed_pip_removes_the_venv() {
    let mut fs = FsModel::new();
    let mut eff = Counters::new();
    let world = InstallWorld {
        venv: ok_subprocess(),
        pip: failed_subprocess("resolution failure"),
        binary_present: true,
    };
    let r = install_package(
        &mut fs, &mut eff, "/pkgs", "foo", "/py/bin/python3", "foo", false, false, &world, false,
    );
    match r {
        Err(YenError::Subprocess { stderr, .. }) => assert_eq!(stderr, "resolution failure"),
        other => panic!("expected the subprocess error, got {:?}", other.is_ok()),
    }
    assert!(!fs.path_exists("/pkgs/venv_foo"));
}

#[test]
fn module_install_publishes_a_bat_shim_on_windows() {
    let mut fs = FsModel::new();
    let mut eff = Counters::new();
    let world = InstallWorld { venv: ok_subprocess(), pip: ok_subprocess(), binary_present: false };
    let (shim, already) = install_package(
        &mut fs, &mut eff, "/pkgs", "mymod", "/py/python.exe", "mymod", true, false, &world, true,
    )
    .unwrap();
    assert_eq!(shim, "/pkgs/mymod.bat");
    assert!(!already);
}

#[test]
fn create_environment_refuses_an_existing_target() {
    // A pre-created directory at the target fails with "already exists"
    // and no subprocess runs.
    let mut fs = FsModel::new();
    fs.add_path("/tmp/exists".to_owned());
    let mut eff = Counters::new();
    let r = create_env(&mut fs, &mut eff, "/py/bin/python3", "/tmp/exists", &ok_subprocess());
    match r {
        Err(YenError::AlreadyExists { path }) => assert_eq!(path, "/tmp/exists"),
        other => panic!("expected the already-exists error, got {:?}", other.is_ok()),
    }
    assert_eq!(eff.venv_creations, 0);
}

#[test]
fn create_environment_surfaces_subprocess_output() {
    let mut fs = FsModel::new();
    let mut eff = Counters::new();
    let r = create_env(
        &mut fs, &mut eff, "/py/bin/python3", "/tmp/fresh", &failed_subprocess("no such file"),
    );
    match r {
        Err(YenError::Subprocess { stderr, .. }) => assert_eq!(stderr, "no such file"),
        other => panic!("expected the subprocess error, got {:?}", other.is_ok()),
    }
    assert_eq!(eff.venv_creations, 1);
    assert!(!fs.path_exists("/tmp/fresh"));
}

#[test]
fn find_or_download_uses_any_cached_interpreter() {
    let mut fs = FsModel::new();
    fs.add_interpreter("3.11.9".to_owned());
    let mut eff = Counters::new();
    let suffixes = MachineSuffix::LinuxX64GlibC.get_suffixes();
    let catalog = list_pythons(&Vec::new(), &suffixes).unwrap();
    let bad_dl = DownloadOutcome { content_length: None, body: Vec::new(), checksum_fetch: None };
    let p = find_or_download_python(&mut fs, &mut eff, "/pythons", &catalog, &bad_dl, false)
        .unwrap();
    assert_eq!(p, "/pythons/3.11.9/python/bin/python3");
    assert_eq!(eff.downloads, 0);
}

#[test]
fn find_or_download_provisions_the_default_version() {
    let mut fs = FsModel::new();
    let mut eff = Counters::new();
    let suffixes = MachineSuffix::LinuxX64GlibC.get_suffixes();
    let catalog = list_pythons(&vec![gnu_url("3.12.4")], &suffixes).unwrap();
    let dl = good_download(b"archive");
    let p = find_or_download_python(&mut fs, &mut eff, "/pythons", &catalog, &dl, false).unwrap();
    assert_eq!(p, "/pythons/3.12.4/python/bin/python3");
    assert_eq!(default_python_version().to_string(), "3.12");
    assert_eq!(eff.downloads, 1);
}

#[test]
fn platform_paths_follow_the_profile() {
    assert_eq!(_python_bin_path("/pythons/3.12.4", false), "/pythons/3.12.4/python/bin/python3");
    assert_eq!(_python_bin_path("/pythons/3.12.4", true), "/pythons/3.12.4/python/python.exe");
    assert_eq!(_venv_binary_path("black", "/pkgs/venv_black", false), "/pkgs/venv_black/bin/black");
    assert_eq!(
        _venv_binary_path("black", "/pkgs/venv_black", true),
        "/pkgs/venv_black/Scripts/black.exe"
    );
}

#[test]
fn shim_script_invokes_the_module() {
    assert_eq!(
        shim_script("/pkgs/venv_foo/bin/python", "foo", false),
        "#!/bin/sh\n/pkgs/venv_foo/bin/python -m foo \"$@\""
    );
    assert_eq!(
        shim_script("/pkgs/venv_foo/Scripts/python.exe", "foo", true),
        "@echo off\n/pkgs/venv_foo/Scripts/python.exe -m foo %*"
    );
}

#[test]
fn machine_selection_matches_the_platform_table() {
    assert!(matches!(
        MachineSuffix::for_platform("linux", "x86_64", true),
        Ok(MachineSuffix::LinuxX64GlibC)
    ));
    assert!(matches!(
        MachineSuffix::for_platform("linux", "x86_64", false),
        Ok(MachineSuffix::LinuxX64Musl)
    ));
    assert!(matches!(
        MachineSuffix::for_platform("macos", "aarch64", false),
        Ok(MachineSuffix::DarwinArm64)
    ));
    match MachineSuffix::for_platform("freebsd", "sparc", true) {
        Err(YenError::UnsupportedPlatform { os, arch }) => {
            assert_eq!(os, "freebsd");
            assert_eq!(arch, "sparc");
        },
        other => panic!("expected the unsupported-platform error, got {:?}", other.is_ok()),
    }
}

#[test]
fn thirty_two_bit_narrowing() {
    assert!(matches!(
        MachineSuffix::LinuxX64GlibC.get_32bit(),
        Some(MachineSuffix::LinuxX86GlibC)
    ));
    assert!(MachineSuffix::DarwinArm64.get_32bit().is_none());
}

#[test]
fn glibc_detection_looks_for_the_markers() {
    assert!(is_glibc("ldd (GNU libc) 2.35"));
    assert!(is_glibc("GLIBC_2.35"));
    assert!(is_glibc("something glibc something"));
    assert!(!is_glibc("musl libc (x86_64)"));
}

#[test]
fn path_membership_splits_on_colons() {
    assert!(path_contains("/usr/bin:/home/u/.yen_packages:/bin", "/home/u/.yen_packages"));
    assert!(!path_contains("/usr/bin:/bin", "/home/u/.yen_packages"));
    assert!(!path_contains("", "/bin"));
}
