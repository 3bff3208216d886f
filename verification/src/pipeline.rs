//! The provisioning pipeline over the modeled world: interpreter cache
//! management, virtual-environment creation and idempotent package
//! installation with shim generation. Every function states exactly how
//! it transforms the filesystem model and the effect counters, and the
//! idempotence, rollback and refusal laws are proved over those
//! transitions.

use vstd::prelude::*;

use crate::catalog::{spec_resolve, Catalog, SpecEntry};
use crate::download::{download, spec_download, DownloadOutcome, SpecDownloadOutcome};
use crate::errors::{SpecErr, YenError};
use crate::fsmodel::{Counters, FsModel, SpecCnt, SpecFs};
use crate::platform::spec_python_bin_path;
use crate::strutil::{concat3, is_prefix, push_char, starts_with_str, str_eq};
use crate::version::Version;

verus! {

/// What one subprocess run handed back: whether it succeeded, and its
/// captured output.
pub struct SubprocessOutcome {
    pub success: bool,
    pub stdout: String,
    pub stderr: String,
}

/// A subprocess outcome as the specification sees it.
pub struct SpecSubprocess {
    pub success: bool,
    pub stdout: Seq<char>,
    pub stderr: Seq<char>,
}

impl View for SubprocessOutcome {
    type V = SpecSubprocess;

    open spec fn view(&self) -> SpecSubprocess {
        SpecSubprocess { success: self.success, stdout: self.stdout@, stderr: self.stderr@ }
    }
}

/// What the outside world handed back during one package install: the
/// environment-creation run, the package-manager run, and whether the
/// expected executable appeared inside the environment.
pub struct InstallWorld {
    pub venv: SubprocessOutcome,
    pub pip: SubprocessOutcome,
    pub binary_present: bool,
}

/// An install's outside outcomes as the specification sees them.
pub struct SpecInstallWorld {
    pub venv: SpecSubprocess,
    pub pip: SpecSubprocess,
    pub binary_present: bool,
}

impl View for InstallWorld {
    type V = SpecInstallWorld;

    open spec fn view(&self) -> SpecInstallWorld {
        SpecInstallWorld { venv: self.venv@, pip: self.pip@, binary_present: self.binary_present }
    }
}

/// What creating a virtual environment does to the world: an occupied
/// target is refused before any subprocess runs; otherwise one
/// environment-creation run is counted, and the directory exists exactly
/// when that run succeeded.
pub open spec fn spec_create_env(
    fs: SpecFs,
    cnt: SpecCnt,
    venv_path: Seq<char>,
    out: SpecSubprocess,
) -> (SpecFs, SpecCnt, Result<(), SpecErr>) {
    if fs.paths.contains(venv_path) {
        (fs, cnt, Err(SpecErr::AlreadyExists { path: venv_path }))
    } else {
        let cnt1 = SpecCnt { venv_creations: cnt.venv_creations + 1, ..cnt };
        if out.success {
            (SpecFs { paths: fs.paths.insert(venv_path), ..fs }, cnt1, Ok(()))
        } else {
            (fs, cnt1, Err(SpecErr::Subprocess { stdout: out.stdout, stderr: out.stderr }))
        }
    }
}

/// Creates a virtual environment at `venv_path` with the given
/// interpreter, as `spec_create_env` lays out. A pre-existing target is
/// refused without any subprocess run.
#[allow(unused_variables)]
pub fn create_env(
    fs: &mut FsModel,
    eff: &mut Counters,
    python_bin_path: &str,
    venv_path: &str,
    outcome: &SubprocessOutcome,
) -> (r: Result<(), YenError>)
    requires
        old(eff).can_count(),
    ensures
        ({
            let t = spec_create_env(old(fs)@, old(eff)@, venv_path@, outcome@);
            &&& final(fs)@ == t.0
            &&& final(eff)@ == t.1
            &&& match r {
                Ok(()) => t.2 == Ok::<(), SpecErr>(()),
                Err(e) => t.2 == Err::<(), SpecErr>(e@),
            }
        }),
{
    if fs.path_exists(venv_path) {
        return Err(YenError::AlreadyExists { path: venv_path.to_owned() });
    }
    eff.venv_creations = eff.venv_creations + 1;
    if outcome.success {
        fs.add_path(venv_path.to_owned());
        Ok(())
    } else {
        Err(
            YenError::Subprocess {
                stdout: outcome.stdout.clone(),
                stderr: outcome.stderr.clone(),
            },
        )
    }
}

/// The shim's path for a package: under the shared install directory,
/// named after the package; on Windows a `.bat` launcher for modules (or
/// where a `.bat` shim already exists), a `.exe` otherwise.
pub open spec fn spec_shim_path(
    fs: SpecFs,
    packages_root: Seq<char>,
    pkg: Seq<char>,
    is_module: bool,
    windows: bool,
) -> Seq<char> {
    let base = packages_root + "/"@ + pkg;
    if windows {
        if is_module || fs.paths.contains(base + ".bat"@) {
            base + ".bat"@
        } else {
            base + ".exe"@
        }
    } else {
        base
    }
}

/// The per-package virtual environment's path.
pub open spec fn spec_pkg_venv_path(packages_root: Seq<char>, pkg: Seq<char>) -> Seq<char> {
    packages_root + "/venv_"@ + pkg
}

/// What installing a package does to the world.
///
/// With the shim present and no forced reinstall, nothing happens and
/// the existing shim is reported. A forced reinstall first removes the
/// shim and the package's environment. A fresh install creates the
/// environment, runs the package manager once, and then either writes a
/// module launcher, moves the found executable to the shim path, or —
/// when the expected executable is absent — removes the environment and
/// fails. A failed package-manager run also removes the environment: no
/// partial state survives a failed install.
pub open spec fn spec_install(
    fs: SpecFs,
    cnt: SpecCnt,
    packages_root: Seq<char>,
    pkg: Seq<char>,
    exe: Seq<char>,
    is_module: bool,
    force: bool,
    world: SpecInstallWorld,
    windows: bool,
) -> (SpecFs, SpecCnt, Result<(Seq<char>, bool), SpecErr>) {
    let shim = spec_shim_path(fs, packages_root, pkg, is_module, windows);
    let venv = spec_pkg_venv_path(packages_root, pkg);
    if fs.paths.contains(shim) && !force {
        (fs, cnt, Ok((shim, true)))
    } else {
        let fs0 = if fs.paths.contains(shim) {
            SpecFs { paths: fs.paths.remove(shim).remove(venv), ..fs }
        } else {
            fs
        };
        let t = spec_create_env(fs0, cnt, venv, world.venv);
        match t.2 {
            Err(e) => (t.0, t.1, Err(e)),
            Ok(()) => {
                let fs1 = t.0;
                let cnt2 = SpecCnt { pip_installs: t.1.pip_installs + 1, ..t.1 };
                if !world.pip.success {
                    (SpecFs { paths: fs1.paths.remove(venv), ..fs1 }, cnt2, Err(
                        SpecErr::Subprocess { stdout: world.pip.stdout, stderr: world.pip.stderr },
                    ))
                } else if is_module {
                    (SpecFs { paths: fs1.paths.insert(shim), ..fs1 }, cnt2, Ok((shim, false)))
                } else if !world.binary_present {
                    (SpecFs { paths: fs1.paths.remove(venv), ..fs1 }, cnt2, Err(
                        SpecErr::EntryPointMissing {
                            executable: exe,
                            package: pkg,
                            suggest_flags: exe == pkg,
                        },
                    ))
                } else {
                    (SpecFs { paths: fs1.paths.insert(shim), ..fs1 }, cnt2, Ok((shim, false)))
                }
            },
        }
    }
}

/// Installs one package into its own virtual environment and publishes a
/// shim, as `spec_install` lays out: idempotent while the shim exists,
/// fresh after a forced removal, and rolled back when the package
/// manager fails or the expected executable is absent.
#[allow(unused_variables)]
pub fn install_package(
    fs: &mut FsModel,
    eff: &mut Counters,
    packages_root: &str,
    package_name: &str,
    python_bin_path: &str,
    executable_name: &str,
    is_module: bool,
    force_reinstall: bool,
    world: &InstallWorld,
    windows: bool,
) -> (r: Result<(String, bool), YenError>)
    requires
        old(eff).can_count(),
    ensures
        ({
            let t = spec_install(
                old(fs)@,
                old(eff)@,
                packages_root@,
                package_name@,
                executable_name@,
                is_module,
                force_reinstall,
                world@,
                windows,
            );
            &&& final(fs)@ == t.0
            &&& final(eff)@ == t.1
            &&& match r {
                Ok((s, b)) => t.2 == Ok::<(Seq<char>, bool), SpecErr>((s@, b)),
                Err(e) => t.2 == Err::<(Seq<char>, bool), SpecErr>(e@),
            }
        }),
{
    let base = concat3(packages_root, "/", package_name);
    let shim_path: String = if windows {
        let mut bat = base.clone();
        bat.append(".bat");
        if is_module || fs.path_exists(bat.as_str()) {
            bat
        } else {
            let mut exe_path = base.clone();
            exe_path.append(".exe");
            exe_path
        }
    } else {
        base
    };
    let venv_path = concat3(packages_root, "/venv_", package_name);
    proof {
        assert(shim_path@ == spec_shim_path(
            old(fs)@,
            packages_root@,
            package_name@,
            is_module,
            windows,
        ));
        assert(venv_path@ == spec_pkg_venv_path(packages_root@, package_name@));
    }
    if fs.path_exists(shim_path.as_str()) {
        if !force_reinstall {
            return Ok((shim_path, true));
        }
        fs.remove_path(shim_path.as_str());
        fs.remove_path(venv_path.as_str());
    }
    match create_env(fs, eff, python_bin_path, venv_path.as_str(), &world.venv) {
        Err(e) => {
            return Err(e);
        },
        Ok(()) => {},
    }
    eff.pip_installs = eff.pip_installs + 1;
    if !world.pip.success {
        fs.remove_path(venv_path.as_str());
        return Err(
            YenError::Subprocess { stdout: world.pip.stdout.clone(), stderr: world.pip.stderr.clone() },
        );
    }
    if is_module {
        fs.add_path(shim_path.clone());
        return Ok((shim_path, false));
    }
    if !world.binary_present {
        fs.remove_path(venv_path.as_str());
        return Err(
            YenError::EntryPointMissing {
                executable: executable_name.to_owned(),
                package: package_name.to_owned(),
                suggest_flags: str_eq(executable_name, package_name),
            },
        );
    }
    fs.add_path(shim_path.clone());
    Ok((shim_path, false))
}

/// The first populated cache directory at or after index `i` whose name
/// starts with the requested rendering and parses as a version.
pub open spec fn spec_scan_cache(interps: Seq<Seq<char>>, req: Seq<char>, i: int) -> Option<int>
    decreases interps.len() - i,
    when 0 <= i <= interps.len()
{
    if i >= interps.len() {
        None
    } else if is_prefix(req, interps[i]) && Version::spec_parse(interps[i]) is Some {
        Some(i)
    } else {
        spec_scan_cache(interps, req, i + 1)
    }
}

/// What ensuring an interpreter does to the world: a cache hit answers
/// from disk with no effect; otherwise the requested version is resolved
/// against the catalog, the archive downloaded and verified, and the
/// cache directory populated by one extraction.
pub open spec fn spec_ensure_python(
    fs: SpecFs,
    cnt: SpecCnt,
    installs_root: Seq<char>,
    requested: Version,
    catalog: Seq<SpecEntry>,
    dl: SpecDownloadOutcome,
    windows: bool,
) -> (SpecFs, SpecCnt, Result<(Version, Seq<char>), SpecErr>) {
    let req = requested.spec_str();
    match spec_scan_cache(fs.interpreters, req, 0) {
        Some(i) => {
            let name = fs.interpreters[i];
            (fs, cnt, Ok(
                (
                    Version::spec_parse(name)->0,
                    spec_python_bin_path(installs_root + seq!['/'] + name, windows),
                ),
            ))
        },
        None => match spec_resolve(catalog, requested) {
            None => (fs, cnt, Err(SpecErr::VersionNotFound)),
            Some((v, url)) => {
                let dir = installs_root + seq!['/'] + v.spec_str();
                let t = spec_download(fs, cnt, url, dir, dl);
                match t.2 {
                    Err(e) => (t.0, t.1, Err(e)),
                    Ok(_) => (
                        SpecFs { interpreters: t.0.interpreters.push(v.spec_str()), ..t.0 },
                        SpecCnt { extractions: t.1.extractions + 1, ..t.1 },
                        Ok((v, spec_python_bin_path(dir, windows))),
                    ),
                }
            },
        },
    }
}

/// Ensures an interpreter satisfying `requested` is cached, as
/// `spec_ensure_python` lays out: the cache is consulted first, and only
/// a miss resolves, downloads, verifies and extracts.
pub fn ensure_python(
    fs: &mut FsModel,
    eff: &mut Counters,
    installs_root: &str,
    requested: &Version,
    catalog: &Catalog,
    dl: &DownloadOutcome,
    windows: bool,
) -> (r: Result<(Version, String), YenError>)
    requires
        old(eff).can_count(),
        catalog.inv(),
    ensures
        ({
            let t = spec_ensure_python(
                old(fs)@,
                old(eff)@,
                installs_root@,
                *requested,
                catalog@,
                dl@,
                windows,
            );
            &&& final(fs)@ == t.0
            &&& final(eff)@ == t.1
            &&& match r {
                Ok((v, p)) => t.2 == Ok::<(Version, Seq<char>), SpecErr>((v, p@)),
                Err(e) => t.2 == Err::<(Version, Seq<char>), SpecErr>(e@),
            }
        }),
{
    let req_str = requested.to_string();
    let n = fs.interpreters.len();
    let ghost interps = fs.interpreters.deep_view();
    proof {
        assert(forall|k: int|
            0 <= k < interps.len() ==> interps[k] == #[trigger] fs.interpreters@[k]@);
    }
    let mut i: usize = 0;
    while i < n
        invariant
            n == interps.len(),
            n == fs.interpreters@.len(),
            interps == fs.interpreters.deep_view(),
            forall|k: int|
                0 <= k < interps.len() ==> interps[k] == #[trigger] fs.interpreters@[k]@,
            req_str@ == requested.spec_str(),
            0 <= i <= n,
            spec_scan_cache(interps, requested.spec_str(), 0) == spec_scan_cache(
                interps,
                requested.spec_str(),
                i as int,
            ),
        decreases n - i,
    {
        let name = &fs.interpreters[i];
        if starts_with_str(name.as_str(), req_str.as_str()) {
            match Version::parse(name.as_str()) {
                Ok(v) => {
                    let mut dir = installs_root.to_owned();
                    push_char(&mut dir, '/');
                    dir.append(name.as_str());
                    proof {
                        assert(dir@ =~= installs_root@ + seq!['/'] + interps[i as int]);
                    }
                    let bin = crate::platform::_python_bin_path(dir.as_str(), windows);
                    return Ok((v, bin));
                },
                Err(_) => {},
            }
        }
        i = i + 1;
    }
    let resolved = match crate::catalog::resolve_python_version(catalog, requested) {
        Ok(p) => p,
        Err(e) => {
            return Err(e);
        },
    };
    let (v, url) = resolved;
    let vs = v.to_string();
    let mut dir = installs_root.to_owned();
    push_char(&mut dir, '/');
    dir.append(vs.as_str());
    proof {
        assert(dir@ =~= installs_root@ + seq!['/'] + v.spec_str());
    }
    match download(fs, eff, url.as_str(), dir.as_str(), dl) {
        Err(e) => {
            return Err(e);
        },
        Ok(_file) => {},
    }
    eff.extractions = eff.extractions + 1;
    fs.add_interpreter(vs);
    let bin = crate::platform::_python_bin_path(dir.as_str(), windows);
    Ok((v, bin))
}

/// The version provisioned when none is asked for.
pub open spec fn spec_default_version() -> Version {
    Version { major: 3, minor: Some(12u32), patch: None }
}

/// The version provisioned when none is asked for.
pub fn default_python_version() -> (v: Version)
    ensures
        v == spec_default_version(),
{
    Version { major: 3, minor: Some(12), patch: None }
}

/// What finding an interpreter does to the world: any populated cache
/// directory answers from disk; an empty cache provisions the default
/// version.
pub open spec fn spec_find_or_download(
    fs: SpecFs,
    cnt: SpecCnt,
    installs_root: Seq<char>,
    catalog: Seq<SpecEntry>,
    dl: SpecDownloadOutcome,
    windows: bool,
) -> (SpecFs, SpecCnt, Result<Seq<char>, SpecErr>) {
    if fs.interpreters.len() > 0 {
        (fs, cnt, Ok(spec_python_bin_path(installs_root + seq!['/'] + fs.interpreters[0], windows)))
    } else {
        let t = spec_ensure_python(fs, cnt, installs_root, spec_default_version(), catalog, dl, windows);
        (t.0, t.1, match t.2 {
            Ok((_, p)) => Ok(p),
            Err(e) => Err(e),
        })
    }
}

/// Returns any cached interpreter's executable; with an empty cache,
/// downloads the default version first. As `spec_find_or_download` lays
/// out.
pub fn find_or_download_python(
    fs: &mut FsModel,
    eff: &mut Counters,
    installs_root: &str,
    catalog: &Catalog,
    dl: &DownloadOutcome,
    windows: bool,
) -> (r: Result<String, YenError>)
    requires
        old(eff).can_count(),
        catalog.inv(),
    ensures
        ({
            let t = spec_find_or_download(old(fs)@, old(eff)@, installs_root@, catalog@, dl@, windows);
            &&& final(fs)@ == t.0
            &&& final(eff)@ == t.1
            &&& match r {
                Ok(p) => t.2 == Ok::<Seq<char>, SpecErr>(p@),
                Err(e) => t.2 == Err::<Seq<char>, SpecErr>(e@),
            }
        }),
{
    if fs.interpreters.len() > 0 {
        let name = &fs.interpreters[0];
        let mut dir = installs_root.to_owned();
        push_char(&mut dir, '/');
        dir.append(name.as_str());
        proof {
            assert(dir@ =~= installs_root@ + seq!['/'] + old(fs)@.interpreters[0]);
        }
        let bin = crate::platform::_python_bin_path(dir.as_str(), windows);
        return Ok(bin);
    }
    let requested = default_python_version();
    match ensure_python(fs, eff, installs_root, &requested, catalog, dl, windows) {
        Ok((_, p)) => Ok(p),
        Err(e) => Err(e),
    }
}

/// What an install does first, from what it sees on disk: an existing
/// shim ends it at once unless a reinstall is forced, in which case the
/// shim and the package's environment are removed before the fresh
/// install.
#[derive(Clone, Copy, Debug, PartialEq, Eq, Structural)]
pub enum StartAction {
    AlreadyInstalled,
    RemoveThenInstall,
    FreshInstall,
}

/// The first decision of an install, from the shim's existence and the
/// force flag.
pub fn install_start_action(shim_exists: bool, force_reinstall: bool) -> (r: StartAction)
    ensures
        r == (if shim_exists && !force_reinstall {
            StartAction::AlreadyInstalled
        } else if shim_exists {
            StartAction::RemoveThenInstall
        } else {
            StartAction::FreshInstall
        }),
{
    if shim_exists && !force_reinstall {
        StartAction::AlreadyInstalled
    } else if shim_exists {
        StartAction::RemoveThenInstall
    } else {
        StartAction::FreshInstall
    }
}

/// The shim path for a package, given whether a `.bat` shim already
/// stands on disk: the naming rule of `spec_shim_path`, with the lookup
/// handed in.
pub fn shim_path_for(
    packages_root: &str,
    package_name: &str,
    is_module: bool,
    bat_exists: bool,
    windows: bool,
) -> (r: String)
    ensures
        r@ == ({
            let base = packages_root@ + "/"@ + package_name@;
            if windows {
                if is_module || bat_exists {
                    base + ".bat"@
                } else {
                    base + ".exe"@
                }
            } else {
                base
            }
        }),
{
    let base = concat3(packages_root, "/", package_name);
    if windows {
        if is_module || bat_exists {
            let mut bat = base;
            bat.append(".bat");
            bat
        } else {
            let mut exe_path = base;
            exe_path.append(".exe");
            exe_path
        }
    } else {
        base
    }
}

/// The per-package virtual environment's path.
pub fn venv_path_for(packages_root: &str, package_name: &str) -> (r: String)
    ensures
        r@ == spec_pkg_venv_path(packages_root@, package_name@),
{
    concat3(packages_root, "/venv_", package_name)
}

/// The error for a package whose expected executable never appeared:
/// the flag hint is added exactly when the expected name merely
/// defaulted to the package name.
pub fn entry_point_missing_error(executable_name: &str, package_name: &str) -> (r: YenError)
    ensures
        r@ == (SpecErr::EntryPointMissing {
            executable: executable_name@,
            package: package_name@,
            suggest_flags: executable_name@ == package_name@,
        }),
{
    YenError::EntryPointMissing {
        executable: executable_name.to_owned(),
        package: package_name.to_owned(),
        suggest_flags: str_eq(executable_name, package_name),
    }
}

/// The launcher text a module shim carries: it hands every argument on
/// to the environment's interpreter running the package as a module.
pub fn shim_script(venv_python_path: &str, package_name: &str, windows: bool) -> (r: String)
    ensures
        windows ==> r@ == "@echo off\n"@ + venv_python_path@ + " -m "@ + package_name@ + " %*"@,
        !windows ==> r@ == "#!/bin/sh\n"@ + venv_python_path@ + " -m "@ + package_name@
            + " \"$@\""@,
{
    if windows {
        let mut s = "@echo off\n".to_owned();
        s.append(venv_python_path);
        s.append(" -m ");
        s.append(package_name);
        s.append(" %*");
        s
    } else {
        let mut s = "#!/bin/sh\n".to_owned();
        s.append(venv_python_path);
        s.append(" -m ");
        s.append(package_name);
        s.append(" \"$@\"");
        s
    }
}

/// Creating an environment over an occupied target fails with the
/// "already exists" error, and neither the filesystem nor any effect
/// counter changes: no subprocess runs.
pub proof fn lemma_create_env_refuses_existing(
    fs: SpecFs,
    cnt: SpecCnt,
    venv_path: Seq<char>,
    out: SpecSubprocess,
)
    requires
        fs.paths.contains(venv_path),
    ensures
        spec_create_env(fs, cnt, venv_path, out) == (
            fs,
            cnt,
            Err::<(), SpecErr>(SpecErr::AlreadyExists { path: venv_path }),
        ),
{
}

/// When the package manager succeeded but the expected executable is
/// absent, the install fails with the entry-point error and the
/// package's virtual environment no longer exists: the rollback leaves
/// no orphaned state.
pub proof fn lemma_install_rollback(
    fs: SpecFs,
    cnt: SpecCnt,
    packages_root: Seq<char>,
    pkg: Seq<char>,
    exe: Seq<char>,
    force: bool,
    world: SpecInstallWorld,
    windows: bool,
)
    requires
        world.venv.success,
        world.pip.success,
        !world.binary_present,
        fs.paths.contains(spec_shim_path(fs, packages_root, pkg, false, windows)) ==> force,
        !fs.paths.contains(spec_shim_path(fs, packages_root, pkg, false, windows))
            ==> !fs.paths.contains(spec_pkg_venv_path(packages_root, pkg)),
    ensures
        ({
            let t = spec_install(fs, cnt, packages_root, pkg, exe, false, force, world, windows);
            &&& t.2 == Err::<(Seq<char>, bool), SpecErr>(
                SpecErr::EntryPointMissing {
                    executable: exe,
                    package: pkg,
                    suggest_flags: exe == pkg,
                },
            )
            &&& !t.0.paths.contains(spec_pkg_venv_path(packages_root, pkg))
        }),
{
}

/// The shim, environment and launcher paths of one package are pairwise
/// distinct.
proof fn lemma_install_path_distinct(packages_root: Seq<char>, pkg: Seq<char>)
    ensures
        ({
            let base = packages_root + "/"@ + pkg;
            let venv = packages_root + "/venv_"@ + pkg;
            &&& base + ".bat"@ != venv
            &&& base + ".exe"@ != venv
            &&& base != venv
            &&& base + ".bat"@ != base + ".exe"@
        }),
{
    reveal_strlit("/");
    reveal_strlit("/venv_");
    reveal_strlit(".bat");
    reveal_strlit(".exe");
    let base = packages_root + "/"@ + pkg;
    let venv = packages_root + "/venv_"@ + pkg;
    assert((base + ".bat"@).len() == packages_root.len() + pkg.len() + 5);
    assert((base + ".exe"@).len() == packages_root.len() + pkg.len() + 5);
    assert(base.len() == packages_root.len() + pkg.len() + 1);
    assert(venv.len() == packages_root.len() + pkg.len() + 6);
    assert((base + ".bat"@)[base.len() as int + 1] == 'b');
    assert((base + ".exe"@)[base.len() as int + 1] == 'e');
    assert(base + ".bat"@ != base + ".exe"@);
}

/// After a fresh, successful install the shim path the installer would
/// compute again is the same one it just published.
proof fn lemma_shim_path_stable(
    fs: SpecFs,
    packages_root: Seq<char>,
    pkg: Seq<char>,
    is_module: bool,
    windows: bool,
    fs2: SpecFs,
)
    requires
        ({
            let shim1 = spec_shim_path(fs, packages_root, pkg, is_module, windows);
            let venv = spec_pkg_venv_path(packages_root, pkg);
            &&& (windows && !is_module && !fs.paths.contains(packages_root + "/"@ + pkg + ".bat"@))
                || is_module || !windows || fs.paths.contains(packages_root + "/"@ + pkg + ".bat"@)
            &&& fs2.paths =~= fs.paths.remove(shim1).remove(venv).insert(venv).insert(shim1) || fs2.paths
                =~= fs.paths.insert(venv).insert(shim1)
        }),
    ensures
        spec_shim_path(fs2, packages_root, pkg, is_module, windows) == spec_shim_path(
            fs,
            packages_root,
            pkg,
            is_module,
            windows,
        ),
        fs2.paths.contains(spec_shim_path(fs, packages_root, pkg, is_module, windows)),
{
    lemma_install_path_distinct(packages_root, pkg);
    let base = packages_root + "/"@ + pkg;
    let venv = spec_pkg_venv_path(packages_root, pkg);
    let shim1 = spec_shim_path(fs, packages_root, pkg, is_module, windows);
    if windows && !is_module {
        let bat = base + ".bat"@;
        if fs.paths.contains(bat) {
            assert(shim1 == bat);
            assert(fs2.paths.contains(bat));
        } else {
            assert(shim1 == base + ".exe"@);
            assert(bat != venv && bat != shim1);
            assert(!fs2.paths.contains(bat));
        }
    }
}

/// Installing the same package twice without a forced reinstall does the
/// work once: after a fresh, successful install, a second call returns
/// the same shim with `already_installed` set, and changes neither the
/// filesystem nor any effect counter — in particular no second
/// package-manager run happens.
pub proof fn lemma_install_idempotent(
    fs: SpecFs,
    cnt: SpecCnt,
    packages_root: Seq<char>,
    pkg: Seq<char>,
    exe: Seq<char>,
    is_module: bool,
    world1: SpecInstallWorld,
    world2: SpecInstallWorld,
    windows: bool,
)
    requires
        spec_install(fs, cnt, packages_root, pkg, exe, is_module, false, world1, windows).2 is Ok,
        spec_install(fs, cnt, packages_root, pkg, exe, is_module, false, world1, windows).2->Ok_0.1
            == false,
    ensures
        ({
            let t1 = spec_install(fs, cnt, packages_root, pkg, exe, is_module, false, world1, windows);
            spec_install(t1.0, t1.1, packages_root, pkg, exe, is_module, false, world2, windows)
                == (t1.0, t1.1, Ok::<(Seq<char>, bool), SpecErr>((t1.2->Ok_0.0, true)))
        }),
{
    let t1 = spec_install(fs, cnt, packages_root, pkg, exe, is_module, false, world1, windows);
    let shim1 = spec_shim_path(fs, packages_root, pkg, is_module, windows);
    let venv = spec_pkg_venv_path(packages_root, pkg);
    assert(!fs.paths.contains(shim1));
    assert(t1.0.paths =~= fs.paths.insert(venv).insert(shim1));
    lemma_shim_path_stable(fs, packages_root, pkg, is_module, windows, t1.0);
    assert(spec_shim_path(t1.0, packages_root, pkg, is_module, windows) == shim1);
    assert(t1.0.paths.contains(shim1));
    assert(t1.2->Ok_0.0 == shim1);
}

/// A forced reinstall after a successful install removes the prior shim
/// and environment and performs a fresh install: it runs the package
/// manager and the environment creation once more, reports
/// `already_installed` as false, and leaves the shim and environment in
/// place.
pub proof fn lemma_forced_reinstall(
    fs: SpecFs,
    cnt: SpecCnt,
    packages_root: Seq<char>,
    pkg: Seq<char>,
    exe: Seq<char>,
    is_module: bool,
    force1: bool,
    world1: SpecInstallWorld,
    world2: SpecInstallWorld,
    windows: bool,
)
    requires
        spec_install(fs, cnt, packages_root, pkg, exe, is_module, force1, world1, windows).2 is Ok,
        spec_install(fs, cnt, packages_root, pkg, exe, is_module, force1, world1, windows).2->Ok_0.1
            == false,
        world2.venv.success,
        world2.pip.success,
        is_module || world2.binary_present,
    ensures
        ({
            let t1 = spec_install(fs, cnt, packages_root, pkg, exe, is_module, force1, world1, windows);
            let t2 = spec_install(t1.0, t1.1, packages_root, pkg, exe, is_module, true, world2, windows);
            &&& t2.2 == Ok::<(Seq<char>, bool), SpecErr>((t1.2->Ok_0.0, false))
            &&& t2.1.pip_installs == t1.1.pip_installs + 1
            &&& t2.1.venv_creations == t1.1.venv_creations + 1
            &&& t2.0.paths.contains(t1.2->Ok_0.0)
            &&& t2.0.paths.contains(spec_pkg_venv_path(packages_root, pkg))
        }),
{
    let t1 = spec_install(fs, cnt, packages_root, pkg, exe, is_module, force1, world1, windows);
    let shim1 = spec_shim_path(fs, packages_root, pkg, is_module, windows);
    let venv = spec_pkg_venv_path(packages_root, pkg);
    if fs.paths.contains(shim1) {
        assert(force1);
        assert(t1.0.paths =~= fs.paths.remove(shim1).remove(venv).insert(venv).insert(shim1));
    } else {
        assert(t1.0.paths =~= fs.paths.insert(venv).insert(shim1));
    }
    lemma_shim_path_stable(fs, packages_root, pkg, is_module, windows, t1.0);
    let shim2 = spec_shim_path(t1.0, packages_root, pkg, is_module, windows);
    assert(shim2 == shim1);
    assert(t1.0.paths.contains(shim1));
    assert(t1.2->Ok_0.0 == shim1);
    let fs0 = SpecFs { paths: t1.0.paths.remove(shim1).remove(venv), ..t1.0 };
    assert(!fs0.paths.contains(venv));
    let t2 = spec_install(t1.0, t1.1, packages_root, pkg, exe, is_module, true, world2, windows);
    assert(t2.0.paths =~= fs0.paths.insert(venv).insert(shim1));
}

/// A scan that found nothing has no matching entry.
proof fn lemma_scan_none_no_match(interps: Seq<Seq<char>>, req: Seq<char>, i: int)
    requires
        0 <= i <= interps.len(),
        spec_scan_cache(interps, req, i) is None,
    ensures
        forall|k: int|
            i <= k < interps.len() ==> !(is_prefix(req, #[trigger] interps[k])
                && Version::spec_parse(interps[k]) is Some),
    decreases interps.len() - i,
{
    if i < interps.len() {
        lemma_scan_none_no_match(interps, req, i + 1);
    }
}

/// A scan beginning before the first matching entry finds exactly it.
proof fn lemma_scan_finds_first(interps: Seq<Seq<char>>, req: Seq<char>, i: int, m: int)
    requires
        0 <= i <= m < interps.len(),
        forall|k: int|
            i <= k < m ==> !(is_prefix(req, #[trigger] interps[k]) && Version::spec_parse(
                interps[k],
            ) is Some),
        is_prefix(req, interps[m]),
        Version::spec_parse(interps[m]) is Some,
    ensures
        spec_scan_cache(interps, req, i) == Some(m),
    decreases m - i,
{
    if i < m {
        lemma_scan_finds_first(interps, req, i + 1, m);
    }
}

/// Ensuring the same version twice downloads and extracts once: after a
/// run that downloaded, a second run is a pure cache hit — it returns
/// the identical version and path and performs no effect at all,
/// whatever catalog or network outcome it is offered.
pub proof fn lemma_ensure_idempotent(
    fs: SpecFs,
    cnt: SpecCnt,
    installs_root: Seq<char>,
    requested: Version,
    catalog: Seq<SpecEntry>,
    dl: SpecDownloadOutcome,
    catalog2: Seq<SpecEntry>,
    dl2: SpecDownloadOutcome,
    windows: bool,
)
    requires
        crate::catalog::entries_wf(catalog),
        spec_ensure_python(fs, cnt, installs_root, requested, catalog, dl, windows).2 is Ok,
        spec_ensure_python(fs, cnt, installs_root, requested, catalog, dl, windows).1.downloads
            != cnt.downloads,
    ensures
        ({
            let t1 = spec_ensure_python(fs, cnt, installs_root, requested, catalog, dl, windows);
            spec_ensure_python(t1.0, t1.1, installs_root, requested, catalog2, dl2, windows) == (
                t1.0,
                t1.1,
                t1.2,
            )
        }),
{
    let t1 = spec_ensure_python(fs, cnt, installs_root, requested, catalog, dl, windows);
    let req = requested.spec_str();
    assert(spec_scan_cache(fs.interpreters, req, 0) is None);
    crate::catalog::lemma_spec_resolve_props(catalog, requested);
    let (v, url) = spec_resolve(catalog, requested)->0;
    let i = choose|i: int|
        0 <= i < catalog.len() && (#[trigger] catalog[i]).version == v && catalog[i].url == url;
    assert(v.wf());
    let vs = v.spec_str();
    assert(t1.0.interpreters =~= fs.interpreters.push(vs));
    crate::version::lemma_parse_round_trip(v);
    lemma_scan_none_no_match(fs.interpreters, req, 0);
    let n = fs.interpreters.len() as int;
    assert(forall|k: int|
        0 <= k < n ==> #[trigger] t1.0.interpreters[k] == fs.interpreters[k]);
    assert(t1.0.interpreters[n] == vs);
    assert(is_prefix(req, vs));
    assert(Version::spec_parse(vs) is Some);
    lemma_scan_finds_first(t1.0.interpreters, req, 0, n);
    assert(spec_scan_cache(t1.0.interpreters, req, 0) == Some(n));
    assert(Version::spec_parse(t1.0.interpreters[n])->0 == v);
}

} // verus!
