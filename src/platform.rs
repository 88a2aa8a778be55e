use vstd::prelude::*;
use vstd::string::*;
use crate::version::{normalize, normalized};

verus! {

/// The operating systems that release artifacts are published for.
#[derive(Debug, Clone, Copy, PartialEq, Eq, Structural)]
pub enum Platform {
    MacOs,
    Linux,
    Windows,
}

/// How a release artifact is packed.
#[derive(Debug, Clone, Copy, PartialEq, Eq, Structural)]
pub enum ContainerFormat {
    /// A gzip-compressed tar archive.
    GzipTar,
    /// An installer package whose payload is a gzip-compressed odc stream.
    XarPackage,
}

/// Everything needed to fetch and unpack the tool for one platform.
#[derive(Debug)]
pub struct ReleaseTarget {
    pub version: String,
    pub platform: Platform,
    pub asset_url: String,
    pub format: ContainerFormat,
    pub binary_name: String,
}

/// The part of an asset's name that names its platform.
pub open spec fn fragment(p: Platform) -> Seq<char> {
    match p {
        Platform::MacOs => "darwin-universal"@,
        Platform::Linux => "Linux-64bit"@,
        Platform::Windows => "windows-amd64"@,
    }
}

pub open spec fn format_of(p: Platform) -> ContainerFormat {
    match p {
        Platform::MacOs => ContainerFormat::XarPackage,
        _ => ContainerFormat::GzipTar,
    }
}

pub open spec fn extension(f: ContainerFormat) -> Seq<char> {
    match f {
        ContainerFormat::GzipTar => "tar.gz"@,
        ContainerFormat::XarPackage => "pkg"@,
    }
}

/// The file name of the installed binary.
pub open spec fn binary_name_of(p: Platform) -> Seq<char> {
    match p {
        Platform::Windows => "hugo.exe"@,
        _ => "hugo"@,
    }
}

/// `.../download/v{version}/hugo_extended_{version}_{fragment}.{ext}`
pub open spec fn asset_url_of(v: Seq<char>, p: Platform) -> Seq<char> {
    "https://github.com/gohugoio/hugo/releases/download/v"@ + v + "/hugo_extended_"@ + v + "_"@
        + fragment(p) + "."@ + extension(format_of(p))
}

/// The bytes of the tool's base name, `hugo`, which names binary candidates in
/// archives.
pub open spec fn tool_name() -> Seq<u8> {
    seq![104u8, 117u8, 103u8, 111u8]
}

/// The tool's base name as bytes.
pub fn tool_name_bytes() -> (r: Vec<u8>)
    ensures
        r@ == tool_name(),
{
    let r: Vec<u8> = vec![104u8, 117u8, 103u8, 111u8];
    assert(r@ =~= tool_name());
    r
}

fn fragment_str(p: Platform) -> (r: &'static str)
    ensures
        r@ == fragment(p),
{
    match p {
        Platform::MacOs => "darwin-universal",
        Platform::Linux => "Linux-64bit",
        Platform::Windows => "windows-amd64",
    }
}

/// Resolves what to fetch for a version on a platform: the version without its
/// hotfix suffix, the asset's URL, how it is packed and the binary's file name.
pub fn resolve(version: &str, platform: Platform) -> (r: ReleaseTarget)
    ensures
        r.version@ == normalized(version@),
        r.platform == platform,
        r.asset_url@ == asset_url_of(normalized(version@), platform),
        r.format == format_of(platform),
        r.binary_name@ == binary_name_of(platform),
{
    let v = normalize(version);
    let format = match platform {
        Platform::MacOs => ContainerFormat::XarPackage,
        _ => ContainerFormat::GzipTar,
    };
    let mut url = String::from_str("https://github.com/gohugoio/hugo/releases/download/v");
    url.append(v.as_str());
    url.append("/hugo_extended_");
    url.append(v.as_str());
    url.append("_");
    url.append(fragment_str(platform));
    url.append(".");
    match format {
        ContainerFormat::GzipTar => url.append("tar.gz"),
        ContainerFormat::XarPackage => url.append("pkg"),
    }
    let binary_name = match platform {
        Platform::Windows => String::from_str("hugo.exe"),
        _ => String::from_str("hugo"),
    };
    ReleaseTarget { version: v, platform, asset_url: url, format, binary_name }
}

} // verus!
