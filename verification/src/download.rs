//! What is downloaded for a package: which file, from where, and how the
//! rockspec is taken out of an archive. The requests themselves are the
//! caller's business.

use crate::fetch::{utf8_text, zip_entry, zip_entry_bytes, zip_read, ZipFailure, ZipOutcome};
use crate::package::{
    PackageName, PackageSpecView, RemotePackage, RemotePackageSource, RemotePackageSourceView,
};
use crate::text::{append_str, chars_of, string_of};
use crate::version::{version_text, PackageVersion, PackageVersionView};
use vstd::prelude::*;

verus! {

/// An archive of a package, in memory.
#[derive(Debug, PartialEq, Eq)]
pub struct DownloadedPackedRockBytes {
    pub name: PackageName,
    pub version: PackageVersion,
    pub bytes: Vec<u8>,
    pub file_name: String,
}

/// An archive of a package, in a file.
#[derive(Debug, PartialEq, Eq)]
pub struct DownloadedPackedRock {
    pub name: PackageName,
    pub version: PackageVersion,
    pub path: String,
}

/// A rockspec that was downloaded: its text, and where it comes from.
#[derive(Debug, PartialEq, Eq)]
pub struct DownloadedRockspec {
    pub rockspec: String,
    pub source: RemotePackageSource,
}

/// Why a package could not be found and downloaded.
#[derive(Debug, PartialEq, Eq)]
pub enum SearchAndDownloadError {
    /// The index has no package that answers the requirement.
    Search(String),
    /// The download failed.
    Download(String),
    /// What was downloaded is no text.
    Utf8,
    /// What was downloaded is no archive.
    Zip(String),
    /// The archive does not hold the rockspec of the given name.
    RockspecNotFoundInSrcRock(String),
}

/// The file name of an archive of a package: name, `-`, version, `.`, and
/// the ending.
pub open spec fn packed_rock_name(name: Seq<char>, version: PackageVersionView, ext: Seq<char>)
    -> Seq<char> {
    name + "-"@ + version_text(version) + "."@ + ext
}

/// The file name of the rockspec of a package.
pub open spec fn rockspec_name(name: Seq<char>, version: PackageVersionView) -> Seq<char> {
    packed_rock_name(name, version, "rockspec"@)
}

/// The ending of a binary archive for the platform with the tag
/// `platform`.
pub open spec fn binary_rock_ext(platform: Seq<char>) -> Seq<char> {
    platform + ".rock"@
}

/// The URL of a file on a server: the URL of the server, `/`, the name of
/// the file.
pub open spec fn file_url(server: Seq<char>, file_name: Seq<char>) -> Seq<char> {
    server + "/"@ + file_name
}

/// What is to be fetched for a package.
#[derive(Debug, PartialEq, Eq)]
pub enum DownloadRequest {
    /// The rockspec, from the URL.
    Rockspec { url: String },
    /// Nothing: the text of the rockspec is at hand.
    Inline { content: String },
    /// The binary archive of the given file name, from the URL.
    BinaryRock { url: String, file_name: String },
    /// The source archive of the given file name, from the URL.
    SrcRock { url: String, file_name: String },
    /// Nothing: the package is the local project.
    Local,
}

/// A request as plain values.
pub enum DownloadRequestView {
    Rockspec { url: Seq<char> },
    Inline { content: Seq<char> },
    BinaryRock { url: Seq<char>, file_name: Seq<char> },
    SrcRock { url: Seq<char>, file_name: Seq<char> },
    Local,
}

impl View for DownloadRequest {
    type V = DownloadRequestView;

    open spec fn view(&self) -> DownloadRequestView {
        match self {
            DownloadRequest::Rockspec { url } => DownloadRequestView::Rockspec { url: url@ },
            DownloadRequest::Inline { content } => DownloadRequestView::Inline {
                content: content@,
            },
            DownloadRequest::BinaryRock { url, file_name } => DownloadRequestView::BinaryRock {
                url: url@,
                file_name: file_name@,
            },
            DownloadRequest::SrcRock { url, file_name } => DownloadRequestView::SrcRock {
                url: url@,
                file_name: file_name@,
            },
            DownloadRequest::Local => DownloadRequestView::Local,
        }
    }
}

/// What is to be fetched for the package `package` from `source`: the
/// rockspec where the server has the rockspec alone, the archive where it
/// has one, and nothing where the rockspec is at hand.
pub open spec fn request_for(
    package: PackageSpecView,
    source: RemotePackageSourceView,
    platform: Seq<char>,
) -> DownloadRequestView {
    match source {
        RemotePackageSourceView::LuarocksRockspec(url) => DownloadRequestView::Rockspec {
            url: file_url(url, rockspec_name(package.name, package.version)),
        },
        RemotePackageSourceView::RockspecContent(content) => DownloadRequestView::Inline {
            content,
        },
        RemotePackageSourceView::LuarocksBinaryRock(url) => DownloadRequestView::BinaryRock {
            url: file_url(
                url,
                packed_rock_name(package.name, package.version, binary_rock_ext(platform)),
            ),
            file_name: packed_rock_name(package.name, package.version, binary_rock_ext(platform)),
        },
        RemotePackageSourceView::LuarocksSrcRock(url) => DownloadRequestView::SrcRock {
            url: file_url(url, packed_rock_name(package.name, package.version, "src.rock"@)),
            file_name: packed_rock_name(package.name, package.version, "src.rock"@),
        },
        RemotePackageSourceView::Local => DownloadRequestView::Local,
    }
}

/// The file name of an archive of a package.
pub fn mk_packed_rock_name(name: &PackageName, version: &PackageVersion, ext: &str) -> (r: String)
    ensures
        r@ == packed_rock_name(name@, version@, ext@),
{
    let mut out = chars_of(name.to_string().as_str());
    append_str(&mut out, "-");
    append_str(&mut out, version.to_string().as_str());
    append_str(&mut out, ".");
    append_str(&mut out, ext);
    string_of(&out)
}

/// The URL of the file `file_name` on the server at `server`.
fn url_of_file(server: &str, file_name: &str) -> (r: String)
    ensures
        r@ == file_url(server@, file_name@),
{
    let mut out = chars_of(server);
    append_str(&mut out, "/");
    append_str(&mut out, file_name);
    string_of(&out)
}

/// What is to be fetched for `remote_package` on the platform with the tag
/// `platform`.
pub fn download_request(remote_package: &RemotePackage, platform: &str) -> (r: DownloadRequest)
    ensures
        r@ == request_for(remote_package.package@, remote_package.source@, platform@),
{
    let package = &remote_package.package;
    match &remote_package.source {
        RemotePackageSource::LuarocksRockspec(url) => {
            let file = mk_packed_rock_name(package.name(), package.version(), "rockspec");
            DownloadRequest::Rockspec { url: url_of_file(url.as_str(), file.as_str()) }
        },
        RemotePackageSource::RockspecContent(content) => DownloadRequest::Inline {
            content: content.clone(),
        },
        RemotePackageSource::LuarocksBinaryRock(url) => {
            let mut ext = chars_of(platform);
            append_str(&mut ext, ".rock");
            let file = mk_packed_rock_name(
                package.name(),
                package.version(),
                string_of(&ext).as_str(),
            );
            DownloadRequest::BinaryRock {
                url: url_of_file(url.as_str(), file.as_str()),
                file_name: file,
            }
        },
        RemotePackageSource::LuarocksSrcRock(url) => {
            let file = mk_packed_rock_name(package.name(), package.version(), "src.rock");
            DownloadRequest::SrcRock {
                url: url_of_file(url.as_str(), file.as_str()),
                file_name: file,
            }
        },
        RemotePackageSource::Local => DownloadRequest::Local,
    }
}

/// The text of the rockspec in an archive of a package, if the archive has
/// it and it is text.
pub open spec fn unpacked_rockspec(
    bytes: Seq<u8>,
    name: Seq<char>,
    version: PackageVersionView,
) -> Option<Seq<char>> {
    match zip_entry_bytes(bytes, rockspec_name(name, version)) {
        Some(content) => if vstd::utf8::valid_utf8(content) {
            Some(vstd::utf8::decode_utf8(content))
        } else {
            None
        },
        None => None,
    }
}

/// Takes the rockspec out of an archive: the entry with the name of the
/// package, `-`, its version and `.rockspec`. Bytes that are no archive
/// and an entry that cannot be read are errors that carry the message of
/// the reader; an archive without that entry is an error that names the
/// entry; an entry that is no text is an error of its own.
pub fn unpack_rockspec(rock: &DownloadedPackedRockBytes) -> (r: Result<
    String,
    SearchAndDownloadError,
>)
    ensures
        match r {
            Ok(text) => unpacked_rockspec(rock.bytes@, rock.name@, rock.version@) == Some(text@),
            Err(SearchAndDownloadError::Zip(m)) => {
                ||| zip_read(rock.bytes@, rockspec_name(rock.name@, rock.version@))
                    == ZipOutcome::Unreadable(m@)
                ||| zip_read(rock.bytes@, rockspec_name(rock.name@, rock.version@))
                    == ZipOutcome::Corrupt(m@)
            },
            Err(SearchAndDownloadError::RockspecNotFoundInSrcRock(n)) => zip_read(
                rock.bytes@,
                rockspec_name(rock.name@, rock.version@),
            ) is Missing && n@ == rockspec_name(rock.name@, rock.version@),
            Err(SearchAndDownloadError::Utf8) => zip_read(
                rock.bytes@,
                rockspec_name(rock.name@, rock.version@),
            ) matches ZipOutcome::Content(content) && !vstd::utf8::valid_utf8(content),
            Err(_) => false,
        },
{
    let entry = mk_packed_rock_name(&rock.name, &rock.version, "rockspec");
    match zip_entry(rock.bytes.as_slice(), entry.as_str()) {
        Ok(content) => match utf8_text(content) {
            Some(text) => Ok(text),
            None => Err(SearchAndDownloadError::Utf8),
        },
        Err(ZipFailure::Read(m)) => Err(SearchAndDownloadError::Zip(m)),
        Err(ZipFailure::Corrupt(m)) => Err(SearchAndDownloadError::Zip(m)),
        Err(ZipFailure::Extract(_)) => Err(
            SearchAndDownloadError::RockspecNotFoundInSrcRock(entry),
        ),
    }
}

/// How a server answered.
#[derive(Copy, Clone, Debug, PartialEq, Eq, Structural)]
pub enum HttpOutcome {
    /// With what was asked for, or a redirection.
    Success,
    /// With an error of the client, 400 to 499.
    ClientError,
    /// With an error of the server, 500 to 599.
    ServerError,
}

/// Tells the errors of the client from those of the server.
pub fn classify_status(status: u16) -> (r: HttpOutcome)
    ensures
        r == if 400 <= status < 500 {
            HttpOutcome::ClientError
        } else if 500 <= status < 600 {
            HttpOutcome::ServerError
        } else {
            HttpOutcome::Success
        },
{
    if 400 <= status && status < 500 {
        HttpOutcome::ClientError
    } else if 500 <= status && status < 600 {
        HttpOutcome::ServerError
    } else {
        HttpOutcome::Success
    }
}

} // verus!
