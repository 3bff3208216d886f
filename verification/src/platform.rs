//! The platform profile: which archive-name suffixes fit the running
//! OS/architecture/libc, in priority order, and the platform-specific
//! layout of interpreter and virtual-environment trees.

use vstd::prelude::*;

use crate::errors::{SpecErr, YenError};
use crate::strutil::{concat2, concat3, contains_seq, contains_str, spec_split, split_char, str_eq};

verus! {

/// One supported OS/architecture/libc combination.
#[derive(Clone, Copy, Debug, PartialEq, Eq, Structural)]
pub enum MachineSuffix {
    DarwinArm64,
    DarwinX64,
    LinuxAarch64,
    LinuxX64GlibC,
    LinuxX64Musl,
    LinuxX86GlibC,
    WindowsX64,
    WindowsX86,
}

impl MachineSuffix {
    /// The acceptable archive-name endings for this machine, most
    /// preferred first: for glibc x86-64 Linux the vectorized build
    /// stands before the generic one.
    pub fn get_suffixes(&self) -> (r: Vec<String>)
        ensures
            r.deep_view() =~~= self.spec_suffixes(),
    {
        let mut v: Vec<String> = Vec::new();
        match self {
            MachineSuffix::DarwinArm64 => {
                v.push("aarch64-apple-darwin-install_only.tar.gz".to_owned());
            },
            MachineSuffix::DarwinX64 => {
                v.push("x86_64-apple-darwin-install_only.tar.gz".to_owned());
            },
            MachineSuffix::LinuxAarch64 => {
                v.push("aarch64-unknown-linux-gnu-install_only.tar.gz".to_owned());
            },
            MachineSuffix::LinuxX64GlibC => {
                v.push("x86_64_v3-unknown-linux-gnu-install_only.tar.gz".to_owned());
                v.push("x86_64-unknown-linux-gnu-install_only.tar.gz".to_owned());
            },
            MachineSuffix::LinuxX64Musl => {
                v.push("x86_64_v3-unknown-linux-musl-install_only.tar.gz".to_owned());
            },
            MachineSuffix::LinuxX86GlibC => {
                v.push("i686-unknown-linux-gnu-install_only.tar.gz".to_owned());
            },
            MachineSuffix::WindowsX64 => {
                v.push("x86_64-pc-windows-msvc-shared-install_only.tar.gz".to_owned());
            },
            MachineSuffix::WindowsX86 => {
                v.push("i686-pc-windows-msvc-install_only.tar.gz".to_owned());
            },
        }
        v
    }

    /// The suffix table as a spec value.
    pub open spec fn spec_suffixes(self) -> Seq<Seq<char>> {
        match self {
            MachineSuffix::DarwinArm64 => seq!["aarch64-apple-darwin-install_only.tar.gz"@],
            MachineSuffix::DarwinX64 => seq!["x86_64-apple-darwin-install_only.tar.gz"@],
            MachineSuffix::LinuxAarch64 => seq!["aarch64-unknown-linux-gnu-install_only.tar.gz"@],
            MachineSuffix::LinuxX64GlibC => seq![
                "x86_64_v3-unknown-linux-gnu-install_only.tar.gz"@,
                "x86_64-unknown-linux-gnu-install_only.tar.gz"@,
            ],
            MachineSuffix::LinuxX64Musl => seq![
                "x86_64_v3-unknown-linux-musl-install_only.tar.gz"@,
            ],
            MachineSuffix::LinuxX86GlibC => seq!["i686-unknown-linux-gnu-install_only.tar.gz"@],
            MachineSuffix::WindowsX64 => seq![
                "x86_64-pc-windows-msvc-shared-install_only.tar.gz"@,
            ],
            MachineSuffix::WindowsX86 => seq!["i686-pc-windows-msvc-install_only.tar.gz"@],
        }
    }

    /// The 32-bit machine this one can be narrowed to, where one exists.
    pub fn get_32bit(&self) -> (r: Option<MachineSuffix>)
        ensures
            r == self.spec_32bit(),
    {
        match self {
            MachineSuffix::DarwinArm64 => None,
            MachineSuffix::DarwinX64 => None,
            MachineSuffix::LinuxAarch64 => None,
            MachineSuffix::LinuxX64GlibC => Some(MachineSuffix::LinuxX86GlibC),
            MachineSuffix::LinuxX64Musl => None,
            MachineSuffix::LinuxX86GlibC => Some(MachineSuffix::LinuxX86GlibC),
            MachineSuffix::WindowsX64 => Some(MachineSuffix::WindowsX86),
            MachineSuffix::WindowsX86 => Some(MachineSuffix::WindowsX86),
        }
    }

    pub open spec fn spec_32bit(self) -> Option<MachineSuffix> {
        match self {
            MachineSuffix::LinuxX64GlibC => Some(MachineSuffix::LinuxX86GlibC),
            MachineSuffix::LinuxX86GlibC => Some(MachineSuffix::LinuxX86GlibC),
            MachineSuffix::WindowsX64 => Some(MachineSuffix::WindowsX86),
            MachineSuffix::WindowsX86 => Some(MachineSuffix::WindowsX86),
            _ => None,
        }
    }

    /// The machine for a detected OS, architecture and (on Linux) libc
    /// flavor; unsupported combinations fail naming both.
    pub open spec fn spec_for_platform(os: Seq<char>, arch: Seq<char>, glibc: bool) -> Result<
        MachineSuffix,
        SpecErr,
    > {
        if os == "linux"@ && glibc && arch == "x86_64"@ {
            Ok(MachineSuffix::LinuxX64GlibC)
        } else if os == "linux"@ && glibc && arch == "aarch64"@ {
            Ok(MachineSuffix::LinuxAarch64)
        } else if os == "linux"@ && glibc && arch == "x86"@ {
            Ok(MachineSuffix::LinuxX86GlibC)
        } else if os == "linux"@ && !glibc && arch == "x86_64"@ {
            Ok(MachineSuffix::LinuxX64Musl)
        } else if os == "macos"@ && arch == "x86_64"@ {
            Ok(MachineSuffix::DarwinX64)
        } else if os == "macos"@ && arch == "aarch64"@ {
            Ok(MachineSuffix::DarwinArm64)
        } else if os == "windows"@ && arch == "x86_64"@ {
            Ok(MachineSuffix::WindowsX64)
        } else if os == "windows"@ && arch == "x86"@ {
            Ok(MachineSuffix::WindowsX86)
        } else {
            Err(SpecErr::UnsupportedPlatform { os, arch })
        }
    }

    /// Selects the machine for the given platform facts, as
    /// `spec_for_platform` lays them out.
    pub fn for_platform(os: &str, arch: &str, glibc: bool) -> (r: Result<MachineSuffix, YenError>)
        ensures
            match r {
                Ok(m) => Self::spec_for_platform(os@, arch@, glibc) == Ok::<
                    MachineSuffix,
                    SpecErr,
                >(m),
                Err(e) => Self::spec_for_platform(os@, arch@, glibc) == Err::<
                    MachineSuffix,
                    SpecErr,
                >(e@),
            },
    {
        let is_linux = str_eq(os, "linux");
        let is_macos = str_eq(os, "macos");
        let is_windows = str_eq(os, "windows");
        let is_x64 = str_eq(arch, "x86_64");
        let is_arm = str_eq(arch, "aarch64");
        let is_x86 = str_eq(arch, "x86");
        if is_linux && glibc && is_x64 {
            Ok(MachineSuffix::LinuxX64GlibC)
        } else if is_linux && glibc && is_arm {
            Ok(MachineSuffix::LinuxAarch64)
        } else if is_linux && glibc && is_x86 {
            Ok(MachineSuffix::LinuxX86GlibC)
        } else if is_linux && !glibc && is_x64 {
            Ok(MachineSuffix::LinuxX64Musl)
        } else if is_macos && is_x64 {
            Ok(MachineSuffix::DarwinX64)
        } else if is_macos && is_arm {
            Ok(MachineSuffix::DarwinArm64)
        } else if is_windows && is_x64 {
            Ok(MachineSuffix::WindowsX64)
        } else if is_windows && is_x86 {
            Ok(MachineSuffix::WindowsX86)
        } else {
            Err(YenError::UnsupportedPlatform { os: os.to_owned(), arch: arch.to_owned() })
        }
    }
}

/// Does the system linker's text carry a glibc signature? True when any of
/// the marker strings `GNU`, `GLIBC` or `glibc` occurs in it.
pub fn is_glibc(linker_text: &str) -> (r: bool)
    ensures
        r == (contains_seq(linker_text@, "GNU"@) || contains_seq(linker_text@, "GLIBC"@)
            || contains_seq(linker_text@, "glibc"@)),
{
    contains_str(linker_text, "GNU") || contains_str(linker_text, "GLIBC") || contains_str(
        linker_text,
        "glibc",
    )
}

/// Does the colon-separated search-path text name this directory?  The
/// warning that an installed shim is not reachable rests on this test.
pub fn path_contains(path_var: &str, dir: &str) -> (r: bool)
    ensures
        r == spec_split(path_var@, ':').contains(dir@),
{
    let parts = split_char(path_var, ':');
    let n = parts.len();
    proof {
        assert(forall|k: int|
            0 <= k < n ==> parts.deep_view()[k] == #[trigger] parts@[k]@);
    }
    let mut i: usize = 0;
    while i < n
        invariant
            n == parts@.len(),
            parts.deep_view() == spec_split(path_var@, ':'),
            forall|k: int| 0 <= k < n ==> parts.deep_view()[k] == #[trigger] parts@[k]@,
            0 <= i <= n,
            forall|k: int| 0 <= k < i ==> #[trigger] parts@[k]@ != dir@,
        decreases n - i,
    {
        if str_eq(parts[i].as_str(), dir) {
            proof {
                assert(spec_split(path_var@, ':')[i as int] == dir@);
            }
            return true;
        }
        i = i + 1;
    }
    proof {
        assert(forall|k: int|
            0 <= k < spec_split(path_var@, ':').len() ==> spec_split(path_var@, ':')[k]
                != #[trigger] dir@) by {
            assert(forall|k: int|
                0 <= k < n ==> spec_split(path_var@, ':')[k] == #[trigger] parts@[k]@);
        }
    }
    false
}

/// The interpreter executable's path inside an extracted interpreter
/// tree.
pub open spec fn spec_python_bin_path(download_dir: Seq<char>, windows: bool) -> Seq<char> {
    if windows {
        download_dir + "/python/python.exe"@
    } else {
        download_dir + "/python/bin/python3"@
    }
}

/// The path of a named executable inside a virtual environment.
pub open spec fn spec_venv_binary_path(binary_name: Seq<char>, venv_path: Seq<char>, windows: bool) -> Seq<
    char,
> {
    if windows {
        venv_path + "/Scripts/"@ + binary_name + ".exe"@
    } else {
        venv_path + "/bin/"@ + binary_name
    }
}

/// The interpreter executable's path inside an extracted interpreter tree.
pub fn _python_bin_path(download_dir: &str, windows: bool) -> (r: String)
    ensures
        r@ == spec_python_bin_path(download_dir@, windows),
{
    if windows {
        concat2(download_dir, "/python/python.exe")
    } else {
        concat2(download_dir, "/python/bin/python3")
    }
}

/// The path of a named executable inside a virtual environment: under
/// `Scripts` with an `.exe` ending on Windows, under `bin` elsewhere.
pub fn _venv_binary_path(binary_name: &str, venv_path: &str, windows: bool) -> (r: String)
    ensures
        r@ == spec_venv_binary_path(binary_name@, venv_path@, windows),
{
    if windows {
        let base = concat3(venv_path, "/Scripts/", binary_name);
        let r = concat2(base.as_str(), ".exe");
        r
    } else {
        concat3(venv_path, "/bin/", binary_name)
    }
}

} // verus!
