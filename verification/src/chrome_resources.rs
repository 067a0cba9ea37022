//! Where the browser and its driver come from and where they are kept: names, addresses
//! and the decision whether they have to be fetched again.

use vstd::prelude::*;
use vstd::string::*;

verus! {

/// What is known of the browser to use: the name of the platform it is built for, and
/// its version.
#[derive(Debug, PartialEq, Eq)]
pub struct ConnectInfo {
    pub os: String,
    pub version: String,
}

/// The value of a [`ConnectInfo`].
pub struct ConnectInfoView {
    pub os: Seq<char>,
    pub version: Seq<char>,
}

impl View for ConnectInfo {
    type V = ConnectInfoView;

    open spec fn view(&self) -> ConnectInfoView {
        ConnectInfoView { os: self.os@, version: self.version@ }
    }
}

impl Clone for ConnectInfo {
    fn clone(&self) -> (copy: Self)
        ensures
            copy@ == self@,
    {
        ConnectInfo { os: self.os.clone(), version: self.version.clone() }
    }
}

impl Default for ConnectInfo {
    fn default() -> (info: Self)
        ensures
            info@.os.len() == 0,
            info@.version.len() == 0,
    {
        ConnectInfo { os: String::new(), version: String::new() }
    }
}

/// The name that the downloads bear for a platform: `mac-arm64` or `mac-x64` for macOS,
/// `win64` for Windows, `linux64` for Linux, and `unsupported` for any other system.
pub open spec fn platform_name(os: Seq<char>, arch: Seq<char>) -> Seq<char> {
    if os == "macos"@ {
        if arch == "aarch64"@ {
            "mac-arm64"@
        } else {
            "mac-x64"@
        }
    } else if os == "windows"@ {
        "win64"@
    } else if os == "linux"@ {
        "linux64"@
    } else {
        "unsupported"@
    }
}

/// The directory in which the browser and its driver are kept.
pub open spec fn resources_dir() -> Seq<char> {
    "resources"@
}

/// The address below which the downloads are found.
pub open spec fn download_root() -> Seq<char> {
    "https://storage.googleapis.com/chrome-for-testing-public"@
}

/// The name of the archive of `product` for a platform.
pub open spec fn archive_name(product: Seq<char>, os: Seq<char>) -> Seq<char> {
    product + "-"@ + os + ".zip"@
}

/// The address of the archive of `product` in the given version for the given platform.
pub open spec fn archive_address(product: Seq<char>, info: ConnectInfoView) -> Seq<char> {
    download_root() + "/"@ + info.version + "/"@ + info.os + "/"@ + archive_name(product, info.os)
}

/// The directory, below the directory of resources, into which the archive of `product`
/// unpacks.
pub open spec fn unpacked_dir(product: Seq<char>, os: Seq<char>) -> Seq<char> {
    product + "-"@ + os
}

/// The platform name for the system and processor that the program runs on.
pub fn determine_os_string(target_os: &str, target_arch: &str) -> (name: String)
    ensures
        name@ == platform_name(target_os@, target_arch@),
{
    let os = String::from_str(target_os);
    let arch = String::from_str(target_arch);
    if os == String::from_str("macos") {
        if arch == String::from_str("aarch64") {
            String::from_str("mac-arm64")
        } else {
            String::from_str("mac-x64")
        }
    } else if os == String::from_str("windows") {
        String::from_str("win64")
    } else if os == String::from_str("linux") {
        String::from_str("linux64")
    } else {
        String::from_str("unsupported")
    }
}

/// The name of the archive of `product`, `chrome` or `chromedriver`, for the platform.
pub fn archive_file_name(product: &str, connect_info: &ConnectInfo) -> (name: String)
    ensures
        name@ == archive_name(product@, connect_info@.os),
{
    let mut name = String::from_str(product);
    name.append("-");
    name.append(connect_info.os.as_str());
    name.append(".zip");
    name
}

/// The address from which the archive of `product` is fetched.
pub fn archive_url(product: &str, connect_info: &ConnectInfo) -> (url: String)
    ensures
        url@ == archive_address(product@, connect_info@),
{
    let mut url = String::from_str("https://storage.googleapis.com/chrome-for-testing-public");
    url.append("/");
    url.append(connect_info.version.as_str());
    url.append("/");
    url.append(connect_info.os.as_str());
    url.append("/");
    let name = archive_file_name(product, connect_info);
    url.append(name.as_str());
    url
}

/// The directory into which the archive of `product` unpacks.
pub fn unpacked_dir_name(product: &str, connect_info: &ConnectInfo) -> (name: String)
    ensures
        name@ == unpacked_dir(product@, connect_info@.os),
{
    let mut name = String::from_str(product);
    name.append("-");
    name.append(connect_info.os.as_str());
    name
}

/// Whether the stored version differs from the latest one.
pub fn needs_update(stored: &ConnectInfo, latest_version: &str) -> (outdated: bool)
    ensures
        outdated == (stored@.version != latest_version@),
{
    stored.version != String::from_str(latest_version)
}

/// Whether the browser or its driver is missing, given which of the two files exist.
pub fn check_for_invalid_paths(driver_exists: bool, binary_exists: bool) -> (invalid: bool)
    ensures
        invalid == (!driver_exists || !binary_exists),
{
    !driver_exists || !binary_exists
}

/// Whether the browser and its driver have to be fetched: after a change of version, or
/// when one of them is missing.
pub fn must_sync(needs_update: bool, driver_exists: bool, binary_exists: bool) -> (sync: bool)
    ensures
        sync == (needs_update || !driver_exists || !binary_exists),
{
    needs_update || check_for_invalid_paths(driver_exists, binary_exists)
}

} // verus!
