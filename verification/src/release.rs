//! Releases of the language server: which one to install, and where.
use vstd::prelude::*;

use crate::text;

verus! {

/// An operating system that there are releases for.
#[derive(Debug, Clone, Copy, PartialEq, Eq, Structural)]
pub enum Os {
    Mac,
    Linux,
    Windows,
}

/// An architecture that there are releases for.
#[derive(Debug, Clone, Copy, PartialEq, Eq, Structural)]
pub enum Architecture {
    Aarch64,
    X86,
    X8664,
}

/// The format of a release archive.
#[derive(Debug, Clone, Copy, PartialEq, Eq, Structural)]
pub enum ArchiveFormat {
    GzipTar,
    Zip,
}

/// A file of a release.
#[derive(Debug)]
pub struct Asset {
    pub name: String,
    pub download_url: String,
}

/// The name of an architecture in the names of releases.
pub open spec fn architecture_word(architecture: Architecture) -> Seq<char> {
    match architecture {
        Architecture::Aarch64 => "aarch64"@,
        Architecture::X86 => "x86"@,
        Architecture::X8664 => "x86_64"@,
    }
}

/// The name of an operating system in the names of releases.
pub open spec fn os_word(os: Os) -> Seq<char> {
    match os {
        Os::Mac => "apple-darwin"@,
        Os::Linux => "unknown-linux-gnu"@,
        Os::Windows => "pc-windows-msvc"@,
    }
}

/// The extension of release archives.
pub open spec fn archive_extension(os: Os) -> Seq<char> {
    match os {
        Os::Mac => "tar.gz"@,
        Os::Linux => "tar.gz"@,
        Os::Windows => "zip"@,
    }
}

/// The format of release archives.
pub open spec fn archive_of(os: Os) -> ArchiveFormat {
    match os {
        Os::Mac => ArchiveFormat::GzipTar,
        Os::Linux => ArchiveFormat::GzipTar,
        Os::Windows => ArchiveFormat::Zip,
    }
}

/// The ending of executables.
pub open spec fn executable_suffix(os: Os) -> Seq<char> {
    match os {
        Os::Windows => ".exe"@,
        _ => ""@,
    }
}

/// The name of the archive of `version` for a platform.
pub open spec fn asset_name_of(version: Seq<char>, architecture: Architecture, os: Os) -> Seq<
    char,
> {
    "rcl-lsp-"@ + version + "-"@ + architecture_word(architecture) + "-"@ + os_word(os) + "."@
        + archive_extension(os)
}

/// The directory that `version` is installed in.
pub open spec fn install_directory(version: Seq<char>) -> Seq<char> {
    "rcl-lsp-"@ + version
}

/// The path of the executable of `version`.
pub open spec fn executable_path(version: Seq<char>, os: Os) -> Seq<char> {
    install_directory(version) + "/rcl-lsp"@ + executable_suffix(os)
}

/// The name of the archive of `version` for a platform.
pub fn asset_name(version: &str, architecture: Architecture, os: Os) -> (name: String)
    ensures
        name@ == asset_name_of(version@, architecture, os),
{
    let architecture_text = match architecture {
        Architecture::Aarch64 => "aarch64",
        Architecture::X86 => "x86",
        Architecture::X8664 => "x86_64",
    };
    let os_text = match os {
        Os::Mac => "apple-darwin",
        Os::Linux => "unknown-linux-gnu",
        Os::Windows => "pc-windows-msvc",
    };
    let extension = match os {
        Os::Mac => "tar.gz",
        Os::Linux => "tar.gz",
        Os::Windows => "zip",
    };
    let mut name = "rcl-lsp-".to_owned();
    name.append(version);
    name.append("-");
    name.append(architecture_text);
    name.append("-");
    name.append(os_text);
    name.append(".");
    name.append(extension);
    name
}

/// How a release is installed.
#[derive(Debug)]
pub struct InstallPlan {
    pub download_url: String,
    pub directory: String,
    pub executable: String,
    pub archive: ArchiveFormat,
}

/// How a release is installed.
#[verifier::ext_equal]
pub struct InstallPlanView {
    pub download_url: Seq<char>,
    pub directory: Seq<char>,
    pub executable: Seq<char>,
    pub archive: ArchiveFormat,
}

impl View for InstallPlan {
    type V = InstallPlanView;

    open spec fn view(&self) -> InstallPlanView {
        InstallPlanView {
            download_url: self.download_url@,
            directory: self.directory@,
            executable: self.executable@,
            archive: self.archive,
        }
    }
}

/// The address of the first of `assets` that is called `name`.
pub open spec fn download_url_of(assets: Seq<Asset>, name: Seq<char>) -> Option<Seq<char>>
    decreases assets.len(),
{
    if assets.len() == 0 {
        None
    } else if assets[0].name@ == name {
        Some(assets[0].download_url@)
    } else {
        download_url_of(assets.drop_first(), name)
    }
}

/// The address of the first of `assets` that is called `name`.
fn find_download_url(assets: &Vec<Asset>, name: &str) -> (url: Option<String>)
    ensures
        text::maybe_string(url) == download_url_of(assets@, name@),
{
    let mut i: usize = 0;
    assert(assets@.skip(0) =~= assets@);
    while i < assets.len()
        invariant
            i <= assets.len(),
            download_url_of(assets@, name@) == download_url_of(assets@.skip(i as int), name@),
        decreases assets.len() - i,
    {
        proof {
            assert(assets@.skip(i as int)[0] == assets@[i as int]);
            assert(assets@.skip(i as int).drop_first() =~= assets@.skip(i + 1));
        }
        if text::same_text(assets[i].name.as_str(), name) {
            return Some(assets[i].download_url.clone());
        }
        i = i + 1;
    }
    None
}

/// How the release `version` with the files `assets` is installed on a platform. Where it has no
/// archive for the platform, the error is the name of the missing archive.
pub fn plan_installation(
    version: &str,
    assets: &Vec<Asset>,
    architecture: Architecture,
    os: Os,
) -> (plan: Result<InstallPlan, String>)
    ensures
        match plan {
            Ok(plan) => {
                &&& download_url_of(assets@, asset_name_of(version@, architecture, os)) == Some(
                    plan@.download_url,
                )
                &&& plan@.directory == install_directory(version@)
                &&& plan@.executable == executable_path(version@, os)
                &&& plan@.archive == archive_of(os)
            },
            Err(missing) => {
                &&& download_url_of(assets@, asset_name_of(version@, architecture, os)) is None
                &&& missing@ == asset_name_of(version@, architecture, os)
            },
        },
{
    let name = asset_name(version, architecture, os);
    let download_url = match find_download_url(assets, name.as_str()) {
        Some(url) => url,
        None => {
            return Err(name);
        },
    };
    let mut directory = "rcl-lsp-".to_owned();
    directory.append(version);
    let mut executable = directory.clone();
    executable.append("/rcl-lsp");
    executable.append(
        match os {
            Os::Windows => ".exe",
            _ => "",
        },
    );
    let archive = match os {
        Os::Mac => ArchiveFormat::GzipTar,
        Os::Linux => ArchiveFormat::GzipTar,
        Os::Windows => ArchiveFormat::Zip,
    };
    Ok(InstallPlan { download_url, directory, executable, archive })
}

/// How the search for the executable goes on.
#[derive(Debug)]
pub enum Step {
    /// The executable is there.
    Ready(String),
    /// The newest release has to be asked for.
    CheckForUpdate,
    /// A release has to be fetched and unpacked, and its executable made runnable.
    Download(InstallPlan),
}

/// How the search for the executable begins: one that was found earlier counts while it is there,
/// then one that is on the search path.
pub fn first_step(cached: Option<String>, is_file: bool, on_path: Option<String>) -> (step: Step)
    ensures
        match step {
            Step::Ready(path) => if cached is Some && is_file {
                cached == Some(path)
            } else {
                on_path == Some(path)
            },
            Step::CheckForUpdate => (cached is None || !is_file) && on_path is None,
            Step::Download(_) => false,
        },
{
    match cached {
        Some(path) => {
            if is_file {
                return Step::Ready(path);
            }
        },
        None => {},
    }
    match on_path {
        Some(path) => Step::Ready(path),
        None => Step::CheckForUpdate,
    }
}

/// How the search goes on for the release that `plan` installs: nothing is fetched that is there.
pub fn installation_step(plan: InstallPlan, is_file: bool) -> (step: Step)
    ensures
        match step {
            Step::Ready(path) => is_file && path == plan.executable,
            Step::CheckForUpdate => false,
            Step::Download(next) => !is_file && next == plan,
        },
{
    if is_file {
        Step::Ready(plan.executable)
    } else {
        Step::Download(plan)
    }
}

/// Whether an entry of the data directory is left over from another version. An entry whose name
/// is no text is.
pub fn is_stale(entry: Option<&str>, plan: &InstallPlan) -> (result: bool)
    ensures
        result == (text::maybe_str(entry) != Some(plan@.directory)),
{
    match entry {
        Some(name) => !text::same_text(name, plan.directory.as_str()),
        None => true,
    }
}

/// An executable lies in the directory that its version is installed in, so that clearing away
/// what is stale keeps it.
pub proof fn executables_lie_in_their_directory(version: Seq<char>, os: Os)
    ensures
        install_directory(version).is_prefix_of(executable_path(version, os)),
{
    let rest = "/rcl-lsp"@ + executable_suffix(os);
    assert(executable_path(version, os) =~= install_directory(version) + rest);
}

/// Different versions are installed in different directories.
pub proof fn versions_have_their_own_directories(a: Seq<char>, b: Seq<char>)
    requires
        install_directory(a) == install_directory(b),
    ensures
        a == b,
{
    let prefix = "rcl-lsp-"@;
    assert(a =~= (prefix + a).skip(prefix.len() as int));
    assert(b =~= (prefix + b).skip(prefix.len() as int));
}

} // verus!
