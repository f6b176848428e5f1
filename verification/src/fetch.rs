//! Fetching the manifest of a server through a cache. The decisions are
//! made here, step by step; the requests themselves and the cache file are
//! the caller's business. The caller performs the action that a step hands
//! out and comes back with what happened.
//!
//! The protocol: where the cache file exists, the server is asked when its
//! manifest was last modified, and the archive is fetched only if that is
//! later than the cache file; where the cache file is missing, or the server
//! does not say, the archive is fetched. A server that answers the URL of
//! the archive with a client error is asked for the manifest itself, not
//! zipped, under the URL without `.zip`.

use crate::config::{join_path, join_path_spec, LuaVersion};
use crate::text::{
    append_str, chars_of, concat, copy_chars, ends_with, has_suffix, slice_of, string_of,
};
use vstd::prelude::*;

verus! {

/// What `url::Url::join` makes of a base URL and a relative reference: the
/// URL, in the text in which the crate writes URLs, or the message of the
/// parser where either is not understood.
pub uninterp spec fn url_join_outcome(base: Seq<char>, relative: Seq<char>) -> Result<
    Seq<char>,
    Seq<char>,
>;

/// What `url::Url::parse` reads from a text: the URL, in the text in which
/// the crate writes URLs, or the message of the parser where the text is
/// no URL.
pub uninterp spec fn url_parse_outcome(text: Seq<char>) -> Result<Seq<char>, Seq<char>>;

/// What is there where all went well.
pub open spec fn ok_of(outcome: Result<Seq<char>, Seq<char>>) -> Option<Seq<char>> {
    match outcome {
        Ok(url) => Some(url),
        Err(_) => None,
    }
}

/// The URL that a relative reference stands for against a base URL, or
/// nothing where either is not understood.
pub open spec fn url_joined(base: Seq<char>, relative: Seq<char>) -> Option<Seq<char>> {
    ok_of(url_join_outcome(base, relative))
}

/// The URL that a text is, or nothing where the text is no URL.
pub open spec fn url_parsed(text: Seq<char>) -> Option<Seq<char>> {
    ok_of(url_parse_outcome(text))
}

/// The seconds since the start of 1970 of the date that
/// `httpdate::parse_http_date` reads from a text, or nothing where the text
/// is no date.
pub uninterp spec fn http_date(text: Seq<char>) -> Option<u64>;

/// What comes of reading one entry of an archive.
pub enum ZipOutcome {
    /// The content of the entry.
    Content(Seq<u8>),
    /// The bytes are no archive; given is the message of the reader.
    Unreadable(Seq<char>),
    /// The archive has no entry of the name; given is the message of the
    /// reader.
    Missing(Seq<char>),
    /// The archive has the entry, but the entry cannot be read; given is
    /// the message of the reader.
    Corrupt(Seq<char>),
}

/// What the `zip` crate makes of the entry `name` of the archive `archive`:
/// `ZipArchive::new` opens the archive, `ZipArchive::by_name` finds the
/// entry by its name, or fails with `FileNotFound` where there is none of
/// that name, and the entry is read to its end.
pub uninterp spec fn zip_read(archive: Seq<u8>, name: Seq<char>) -> ZipOutcome;

/// The content of the entry `name` of the zip archive `archive`, or nothing
/// where the bytes are no archive or the archive has no such entry that can
/// be read.
pub open spec fn zip_entry_bytes(archive: Seq<u8>, name: Seq<char>) -> Option<Seq<u8>> {
    match zip_read(archive, name) {
        ZipOutcome::Content(content) => Some(content),
        _ => None,
    }
}

/// `Url::parse` and `Url::join` of the `url` crate: the reference resolved
/// against the base. The error is the message of the parser.
#[verifier::external_body]
fn url_join(base: &str, relative: &str) -> (r: Result<String, String>)
    ensures
        match r {
            Ok(u) => url_join_outcome(base@, relative@) == Ok::<Seq<char>, Seq<char>>(u@),
            Err(m) => url_join_outcome(base@, relative@) == Err::<Seq<char>, Seq<char>>(m@),
        },
{
    match url::Url::parse(base) {
        Ok(b) => match b.join(relative) {
            Ok(u) => Ok(u.to_string()),
            Err(e) => Err(e.to_string()),
        },
        Err(e) => Err(e.to_string()),
    }
}

/// `Url::parse` of the `url` crate. The error is the message of the parser.
#[verifier::external_body]
fn url_parse(text: &str) -> (r: Result<String, String>)
    ensures
        match r {
            Ok(u) => url_parse_outcome(text@) == Ok::<Seq<char>, Seq<char>>(u@),
            Err(m) => url_parse_outcome(text@) == Err::<Seq<char>, Seq<char>>(m@),
        },
{
    match url::Url::parse(text) {
        Ok(u) => Ok(u.to_string()),
        Err(e) => Err(e.to_string()),
    }
}

/// `httpdate::parse_http_date`, with the date in seconds since the start of
/// 1970.
#[verifier::external_body]
fn http_date_seconds(text: &str) -> (r: Option<u64>)
    ensures
        r == http_date(text@),
{
    match httpdate::parse_http_date(text) {
        Ok(t) => match t.duration_since(std::time::UNIX_EPOCH) {
            Ok(d) => Some(d.as_secs()),
            Err(_) => None,
        },
        Err(_) => None,
    }
}

/// Why an entry could not be had from an archive.
#[derive(Debug, PartialEq, Eq)]
pub enum ZipFailure {
    /// The bytes are no archive.
    Read(String),
    /// The archive has no entry of the name.
    Extract(String),
    /// The archive has the entry, but the entry cannot be read.
    Corrupt(String),
}

/// `ZipArchive::new` and `ZipArchive::by_name` of the `zip` crate: the
/// content of one entry of an archive. Where `ZipArchive::new` refuses the
/// bytes, the failure is `Read`; where `by_name` answers `FileNotFound`, it
/// is `Extract`; where `by_name` fails otherwise or the entry cannot be
/// read to its end, it is `Corrupt`. Each carries the message of the error.
#[verifier::external_body]
pub(crate) fn zip_entry(archive: &[u8], name: &str) -> (r: Result<Vec<u8>, ZipFailure>)
    ensures
        match r {
            Ok(content) => zip_read(archive@, name@) == ZipOutcome::Content(content@),
            Err(ZipFailure::Read(m)) => zip_read(archive@, name@) == ZipOutcome::Unreadable(m@),
            Err(ZipFailure::Extract(m)) => zip_read(archive@, name@) == ZipOutcome::Missing(m@),
            Err(ZipFailure::Corrupt(m)) => zip_read(archive@, name@) == ZipOutcome::Corrupt(m@),
        },
{
    let opened = zip::ZipArchive::new(std::io::Cursor::new(archive));
    let mut zip = opened.map_err(|e| ZipFailure::Read(e.to_string()))?;
    let mut file = match zip.by_name(name) {
        Ok(file) => file,
        Err(e @ zip::result::ZipError::FileNotFound) => return Err(ZipFailure::Extract(e.to_string())),
        Err(e) => return Err(ZipFailure::Corrupt(e.to_string())),
    };
    let mut content = Vec::new();
    match std::io::Read::read_to_end(&mut file, &mut content) {
        Ok(_) => Ok(content),
        Err(e) => Err(ZipFailure::Corrupt(e.to_string())),
    }
}

/// `String::from_utf8` of std: the text that the bytes encode, where they
/// are UTF-8.
#[verifier::external_body]
pub(crate) fn utf8_text(bytes: Vec<u8>) -> (r: Option<String>)
    ensures
        r is Some == vstd::utf8::valid_utf8(bytes@),
        r matches Some(t) ==> t@ == vstd::utf8::decode_utf8(bytes@),
{
    String::from_utf8(bytes).ok()
}

/// `s` without the copies of `suffix` at its end.
pub open spec fn strip_suffix_all(s: Seq<char>, suffix: Seq<char>) -> Seq<char>
    decreases s.len(),
{
    if suffix.len() > 0 && has_suffix(s, suffix) {
        strip_suffix_all(s.take(s.len() - suffix.len()), suffix)
    } else {
        s
    }
}

/// Takes the copies of `suffix` off the end of `text`.
pub fn trim_end_matches_str(text: &Vec<char>, suffix: &Vec<char>) -> (r: Vec<char>)
    ensures
        r@ == strip_suffix_all(text@, suffix@),
{
    let mut end: usize = text.len();
    proof {
        assert(text@.take(text.len() as int) =~= text@);
    }
    if suffix.len() == 0 {
        return copy_chars(text);
    }
    loop
        invariant
            end <= text.len(),
            suffix.len() > 0,
            strip_suffix_all(text@, suffix@) == strip_suffix_all(text@.take(end as int), suffix@),
        decreases end,
    {
        let head = slice_of(text, 0, end);
        proof {
            assert(text@.subrange(0, end as int) =~= text@.take(end as int));
        }
        if ends_with(&head, suffix) {
            proof {
                assert(text@.take(end as int).take(end - suffix.len()) =~= text@.take(
                    end - suffix.len(),
                ));
            }
            end = end - suffix.len();
        } else {
            return head;
        }
    }
}

/// Whether `c` is one of the characters that may not stand in the name of a
/// cache file.
pub open spec fn is_unsafe_in_file_name(c: char) -> bool {
    c == ':' || c == '*' || c == '?' || c == '"' || c == '<' || c == '>' || c == '|' || c == '/'
        || c == '\\'
}

/// `s` with each character that may not stand in a file name replaced by
/// `_`.
pub open spec fn file_name_safe(s: Seq<char>) -> Seq<char> {
    s.map_values(
        |c: char|
            if is_unsafe_in_file_name(c) {
                '_'
            } else {
                c
            },
    )
}

/// The name of the cache file of the manifest at `url`: the URL with the
/// characters that may not stand in a file name replaced by `_`, without
/// `.zip` at its end.
pub open spec fn cache_file_name(url: Seq<char>) -> Seq<char> {
    strip_suffix_all(file_name_safe(url), ".zip"@)
}

/// The name of the archive of the manifest for one version of Lua.
pub open spec fn manifest_file_name(manifest_version: Seq<char>) -> Seq<char> {
    "manifest-"@ + manifest_version + ".zip"@
}

/// The name of the manifest in its archive.
pub open spec fn manifest_entry_name(manifest_version: Seq<char>) -> Seq<char> {
    "manifest-"@ + manifest_version
}

/// The URL of the archive of the manifest on a server: the name of the
/// archive resolved against the URL of the server, or against its directory
/// `manifests/<namespace>/` where a namespace is configured; or the
/// message of the URL parser where that cannot be done.
pub open spec fn manifest_url_outcome(
    server_url: Seq<char>,
    manifest_version: Seq<char>,
    namespace: Option<Seq<char>>,
) -> Result<Seq<char>, Seq<char>> {
    match namespace {
        Some(n) => match url_join_outcome(server_url, "manifests/"@ + n + "/"@) {
            Ok(dir) => url_join_outcome(dir, manifest_file_name(manifest_version)),
            Err(m) => Err(m),
        },
        None => url_join_outcome(server_url, manifest_file_name(manifest_version)),
    }
}

/// The URL of the archive of the manifest on a server, if it can be made.
pub open spec fn manifest_url_spec(
    server_url: Seq<char>,
    manifest_version: Seq<char>,
    namespace: Option<Seq<char>>,
) -> Option<Seq<char>> {
    ok_of(manifest_url_outcome(server_url, manifest_version, namespace))
}

/// The URL under which a server has the manifest of the archive at `url`
/// not zipped, or the message of the URL parser.
pub open spec fn fallback_url_outcome(url: Seq<char>) -> Result<Seq<char>, Seq<char>> {
    url_parse_outcome(strip_suffix_all(url, ".zip"@))
}

/// The URL under which a server has the manifest of the archive at `url`
/// not zipped, if it can be made.
pub open spec fn fallback_url_spec(url: Seq<char>) -> Option<Seq<char>> {
    ok_of(fallback_url_outcome(url))
}

/// The URL of the archive of the manifest on a server. The error is the
/// message of the URL parser.
pub fn mk_manifest_url(server_url: &str, manifest_version: &str, namespace: Option<&str>) -> (r:
    Result<String, String>)
    ensures
        match r {
            Ok(u) => manifest_url_spec(
                server_url@,
                manifest_version@,
                match namespace {
                    Some(n) => Some(n@),
                    None => None,
                },
            ) == Some(u@),
            Err(m) => manifest_url_outcome(
                server_url@,
                manifest_version@,
                match namespace {
                    Some(n) => Some(n@),
                    None => None,
                },
            ) == Err::<Seq<char>, Seq<char>>(m@),
        },
{
    let mut name = chars_of("manifest-");
    append_str(&mut name, manifest_version);
    append_str(&mut name, ".zip");
    let file_name = string_of(&name);
    match namespace {
        Some(n) => {
            let mut dir = chars_of("manifests/");
            append_str(&mut dir, n);
            append_str(&mut dir, "/");
            match url_join(server_url, string_of(&dir).as_str()) {
                Ok(base) => url_join(base.as_str(), file_name.as_str()),
                Err(e) => Err(e),
            }
        },
        None => url_join(server_url, file_name.as_str()),
    }
}

/// The URL of the manifest itself, given the URL of its archive.
pub fn fallback_unzipped_url(url: &str) -> (r: Result<String, String>)
    ensures
        match r {
            Ok(u) => fallback_url_spec(url@) == Some(u@),
            Err(m) => fallback_url_outcome(url@) == Err::<Seq<char>, Seq<char>>(m@),
        },
{
    let stripped = trim_end_matches_str(&chars_of(url), &chars_of(".zip"));
    url_parse(string_of(&stripped).as_str())
}

/// The path of the cache file of the manifest at `url`, in the directory
/// `cache_dir`.
pub fn mk_manifest_cache(url: &str, cache_dir: &str) -> (r: String)
    ensures
        r@ == join_path_spec(cache_dir@, cache_file_name(url@)),
{
    let chars = chars_of(url);
    let mut safe: Vec<char> = Vec::new();
    let mut i: usize = 0;
    while i < chars.len()
        invariant
            i <= chars.len(),
            safe@ == file_name_safe(chars@).take(i as int),
        decreases chars.len() - i,
    {
        let c = chars[i];
        let unsafe_here = c == ':' || c == '*' || c == '?' || c == '"' || c == '<' || c == '>'
            || c == '|' || c == '/' || c == '\\';
        if unsafe_here {
            safe.push('_');
        } else {
            safe.push(c);
        }
        proof {
            assert(file_name_safe(chars@).take(i as int).push(file_name_safe(chars@)[i as int])
                =~= file_name_safe(chars@).take(i as int + 1));
        }
        i = i + 1;
    }
    proof {
        assert(file_name_safe(chars@).take(chars.len() as int) =~= file_name_safe(chars@));
    }
    let name = trim_end_matches_str(&safe, &chars_of(".zip"));
    join_path(cache_dir, string_of(&name).as_str())
}

/// Why a manifest could not be had from a server.
#[derive(Debug, PartialEq, Eq)]
pub enum ManifestFromServerError {
    /// The request failed, or the server answered with an error status.
    Request(String),
    /// The server answered with the given error status.
    Status(u16),
    /// What the server sent is no text.
    FromUtf8,
    /// The server sent a date that is none.
    InvalidDate(String),
    /// The URL of the manifest cannot be made.
    Url(String),
    /// What the server sent under the given URL is no archive.
    ZipRead(String, String),
    /// The archive from the given URL does not hold the manifest, or holds
    /// it in a form that cannot be read.
    ZipExtract(String, String),
    /// The manifest that was fetched anew cannot be read either; given is
    /// what is wrong with it.
    Unreadable(String),
    /// A step was asked for that the protocol does not have.
    UnexpectedEvent,
}

/// What a fetch needs to know: the URL of the archive, the URL of the
/// manifest not zipped, the name of the manifest in the archive, and the
/// path of the cache file.
#[derive(Debug, PartialEq, Eq)]
pub struct ManifestFetch {
    pub url: String,
    pub fallback_url: String,
    pub entry_name: String,
    pub cache: String,
}

/// A fetch as plain values.
pub struct ManifestFetchView {
    pub url: Seq<char>,
    pub fallback_url: Seq<char>,
    pub entry_name: Seq<char>,
    pub cache: Seq<char>,
}

impl View for ManifestFetch {
    type V = ManifestFetchView;

    open spec fn view(&self) -> ManifestFetchView {
        ManifestFetchView {
            url: self.url@,
            fallback_url: self.fallback_url@,
            entry_name: self.entry_name@,
            cache: self.cache@,
        }
    }
}

/// Where a fetch stands.
#[derive(Copy, Clone, Debug, PartialEq, Eq, Structural)]
pub enum FetchState {
    /// The cache file is being looked at.
    CheckCache,
    /// The server has been asked when the archive was last modified; the
    /// cache file was last modified at the given second.
    AwaitHead { cache_modified: u64 },
    /// The same question has been asked of the URL without `.zip`.
    AwaitFallbackHead { cache_modified: u64 },
    /// The archive has been asked for.
    AwaitGet,
    /// The manifest itself has been asked for.
    AwaitFallbackGet,
    /// The manifest has been handed out, from the cache file or from the
    /// server.
    Loaded,
    /// The archive has been asked for once more, the cache file left
    /// aside.
    AwaitGetAgain,
    /// The manifest itself has been asked for once more.
    AwaitFallbackGetAgain,
    /// The manifest has been handed out after it was fetched anew.
    LoadedAgain,
    /// The fetch has failed.
    Finished,
}

/// What has happened since the last step.
#[derive(Debug, PartialEq, Eq)]
pub enum FetchEvent {
    /// The cache file was looked at: it was last modified at the given
    /// second, or it does not exist.
    CacheChecked(Option<u64>),
    /// The server answered a question for the headers, with a status and
    /// perhaps a `Last-Modified`.
    Head { status: u16, last_modified: Option<String> },
    /// The server answered a request for a body, with a status and a body.
    Body { status: u16, body: Vec<u8> },
    /// The request did not get through.
    Failed(String),
    /// The manifest that was handed out cannot be read; given is what is
    /// wrong with it.
    Unreadable(String),
}

/// An event as plain values.
pub enum FetchEventView {
    CacheChecked(Option<u64>),
    Head { status: u16, last_modified: Option<Seq<char>> },
    Body { status: u16, body: Seq<u8> },
    Failed(Seq<char>),
    Unreadable(Seq<char>),
}

impl View for FetchEvent {
    type V = FetchEventView;

    open spec fn view(&self) -> FetchEventView {
        match self {
            FetchEvent::CacheChecked(t) => FetchEventView::CacheChecked(*t),
            FetchEvent::Head { status, last_modified } => FetchEventView::Head {
                status: *status,
                last_modified: match last_modified {
                    Some(t) => Some(t@),
                    None => None,
                },
            },
            FetchEvent::Body { status, body } => FetchEventView::Body {
                status: *status,
                body: body@,
            },
            FetchEvent::Failed(m) => FetchEventView::Failed(m@),
            FetchEvent::Unreadable(m) => FetchEventView::Unreadable(m@),
        }
    }
}

/// What the caller is to do next.
#[derive(Debug, PartialEq, Eq)]
pub enum FetchAction {
    /// Look when the cache file at the path was last modified.
    CheckCache(String),
    /// Ask the server for the headers of the URL.
    Head(String),
    /// Ask the server for the body of the URL.
    Get(String),
    /// The manifest is the content of the cache file at the path.
    ServeCache(String),
    /// The manifest is the given text; write it to the cache file at the
    /// path.
    Store { cache: String, manifest: String },
    /// The fetch has failed.
    Fail(ManifestFromServerError),
}

/// Why a fetch failed, as plain values.
pub enum FetchFailure {
    Request(Seq<char>),
    Status(u16),
    FromUtf8,
    InvalidDate(Seq<char>),
    Url(Seq<char>),
    ZipRead(Seq<char>, Seq<char>),
    ZipExtract(Seq<char>, Seq<char>),
    Unreadable(Seq<char>),
    UnexpectedEvent,
}

impl View for ManifestFromServerError {
    type V = FetchFailure;

    open spec fn view(&self) -> FetchFailure {
        match self {
            ManifestFromServerError::Request(m) => FetchFailure::Request(m@),
            ManifestFromServerError::Status(s) => FetchFailure::Status(*s),
            ManifestFromServerError::FromUtf8 => FetchFailure::FromUtf8,
            ManifestFromServerError::InvalidDate(t) => FetchFailure::InvalidDate(t@),
            ManifestFromServerError::Url(m) => FetchFailure::Url(m@),
            ManifestFromServerError::ZipRead(url, m) => FetchFailure::ZipRead(url@, m@),
            ManifestFromServerError::ZipExtract(url, m) => FetchFailure::ZipExtract(url@, m@),
            ManifestFromServerError::Unreadable(m) => FetchFailure::Unreadable(m@),
            ManifestFromServerError::UnexpectedEvent => FetchFailure::UnexpectedEvent,
        }
    }
}

/// What the caller is to do next, as plain values.
pub enum FetchActionView {
    CheckCache(Seq<char>),
    Head(Seq<char>),
    Get(Seq<char>),
    ServeCache(Seq<char>),
    Store { cache: Seq<char>, manifest: Seq<char> },
    Fail(FetchFailure),
}

impl View for FetchAction {
    type V = FetchActionView;

    open spec fn view(&self) -> FetchActionView {
        match self {
            FetchAction::CheckCache(p) => FetchActionView::CheckCache(p@),
            FetchAction::Head(u) => FetchActionView::Head(u@),
            FetchAction::Get(u) => FetchActionView::Get(u@),
            FetchAction::ServeCache(p) => FetchActionView::ServeCache(p@),
            FetchAction::Store { cache, manifest } => FetchActionView::Store {
                cache: cache@,
                manifest: manifest@,
            },
            FetchAction::Fail(e) => FetchActionView::Fail(e@),
        }
    }
}

/// Whether a status tells of an error of the client.
pub open spec fn is_client_error(status: u16) -> bool {
    400 <= status < 500
}

/// Whether a status tells of an error.
pub open spec fn is_error(status: u16) -> bool {
    400 <= status < 600
}

/// What follows from the headers of the manifest on the server: where the
/// server says that it was modified later than the cache file, the archive
/// is fetched; where it was not, or the server does not say when it was,
/// the cache file is served. A `Last-Modified` that is no date ends the
/// fetch.
pub open spec fn after_head(
    fetch: ManifestFetchView,
    cache_modified: u64,
    last_modified: Option<Seq<char>>,
) -> (FetchState, FetchActionView) {
    match last_modified {
        None => (FetchState::Loaded, FetchActionView::ServeCache(fetch.cache)),
        Some(text) => match http_date(text) {
            None => (FetchState::Finished, FetchActionView::Fail(FetchFailure::InvalidDate(text))),
            Some(server_modified) => if server_modified > cache_modified {
                (FetchState::AwaitGet, FetchActionView::Get(fetch.url))
            } else {
                (FetchState::Loaded, FetchActionView::ServeCache(fetch.cache))
            },
        },
    }
}

/// What follows from a body that is the text of the manifest, `done`
/// being the state in which the manifest is handed out.
pub open spec fn after_text(fetch: ManifestFetchView, body: Seq<u8>, done: FetchState) -> (
    FetchState,
    FetchActionView,
) {
    if vstd::utf8::valid_utf8(body) {
        (
            done,
            FetchActionView::Store { cache: fetch.cache, manifest: vstd::utf8::decode_utf8(body) },
        )
    } else {
        (FetchState::Finished, FetchActionView::Fail(FetchFailure::FromUtf8))
    }
}

/// What follows from a body that is the archive of the manifest, `done`
/// being the state in which the manifest is handed out.
pub open spec fn after_archive(fetch: ManifestFetchView, body: Seq<u8>, done: FetchState) -> (
    FetchState,
    FetchActionView,
) {
    match zip_read(body, fetch.entry_name) {
        ZipOutcome::Content(content) => after_text(fetch, content, done),
        ZipOutcome::Unreadable(m) => (
            FetchState::Finished,
            FetchActionView::Fail(FetchFailure::ZipRead(fetch.url, m)),
        ),
        ZipOutcome::Missing(m) => (
            FetchState::Finished,
            FetchActionView::Fail(FetchFailure::ZipExtract(fetch.url, m)),
        ),
        ZipOutcome::Corrupt(m) => (
            FetchState::Finished,
            FetchActionView::Fail(FetchFailure::ZipExtract(fetch.url, m)),
        ),
    }
}

/// The step of the protocol: the state that follows `state` on `event`, and
/// what the caller is to do.
pub open spec fn next_step(fetch: ManifestFetchView, state: FetchState, event: FetchEventView) -> (
    FetchState,
    FetchActionView,
) {
    match (state, event) {
        (FetchState::CheckCache, FetchEventView::CacheChecked(Some(t))) => (
            FetchState::AwaitHead { cache_modified: t },
            FetchActionView::Head(fetch.url),
        ),
        (FetchState::CheckCache, FetchEventView::CacheChecked(None)) => (
            FetchState::AwaitGet,
            FetchActionView::Get(fetch.url),
        ),
        (
            FetchState::AwaitHead { cache_modified },
            FetchEventView::Head { status, last_modified },
        ) => if is_client_error(status) {
            (
                FetchState::AwaitFallbackHead { cache_modified },
                FetchActionView::Head(fetch.fallback_url),
            )
        } else if is_error(status) {
            (FetchState::Finished, FetchActionView::Fail(FetchFailure::Status(status)))
        } else {
            after_head(fetch, cache_modified, last_modified)
        },
        (
            FetchState::AwaitFallbackHead { cache_modified },
            FetchEventView::Head { status, last_modified },
        ) => if is_error(status) {
            (FetchState::Finished, FetchActionView::Fail(FetchFailure::Status(status)))
        } else {
            after_head(fetch, cache_modified, last_modified)
        },
        (FetchState::AwaitGet, FetchEventView::Body { status, body }) => if is_client_error(
            status,
        ) {
            (FetchState::AwaitFallbackGet, FetchActionView::Get(fetch.fallback_url))
        } else if is_error(status) {
            (FetchState::Finished, FetchActionView::Fail(FetchFailure::Status(status)))
        } else {
            after_archive(fetch, body, FetchState::Loaded)
        },
        (FetchState::AwaitFallbackGet, FetchEventView::Body { status, body }) => if is_error(
            status,
        ) {
            (FetchState::Finished, FetchActionView::Fail(FetchFailure::Status(status)))
        } else {
            after_text(fetch, body, FetchState::Loaded)
        },
        (FetchState::Loaded, FetchEventView::Unreadable(_)) => (
            FetchState::AwaitGetAgain,
            FetchActionView::Get(fetch.url),
        ),
        (FetchState::AwaitGetAgain, FetchEventView::Body { status, body }) => if is_client_error(
            status,
        ) {
            (FetchState::AwaitFallbackGetAgain, FetchActionView::Get(fetch.fallback_url))
        } else if is_error(status) {
            (FetchState::Finished, FetchActionView::Fail(FetchFailure::Status(status)))
        } else {
            after_archive(fetch, body, FetchState::LoadedAgain)
        },
        (FetchState::AwaitFallbackGetAgain, FetchEventView::Body { status, body }) => if is_error(
            status,
        ) {
            (FetchState::Finished, FetchActionView::Fail(FetchFailure::Status(status)))
        } else {
            after_text(fetch, body, FetchState::LoadedAgain)
        },
        (FetchState::LoadedAgain, FetchEventView::Unreadable(m)) => (
            FetchState::Finished,
            FetchActionView::Fail(FetchFailure::Unreadable(m)),
        ),
        (_, FetchEventView::Failed(m)) => (
            FetchState::Finished,
            FetchActionView::Fail(FetchFailure::Request(m)),
        ),
        _ => (FetchState::Finished, FetchActionView::Fail(FetchFailure::UnexpectedEvent)),
    }
}

/// A manifest on the server that was not modified after the cache file is
/// not fetched again: the cache file is served, and nothing is written.
pub proof fn lemma_unmodified_manifest_is_served_from_cache(
    fetch: ManifestFetchView,
    cache_modified: u64,
    status: u16,
    last_modified: Seq<char>,
)
    requires
        !is_error(status),
        http_date(last_modified) matches Some(t) && t <= cache_modified,
    ensures
        next_step(
            fetch,
            FetchState::AwaitHead { cache_modified },
            FetchEventView::Head { status, last_modified: Some(last_modified) },
        ) == (FetchState::Loaded, FetchActionView::ServeCache(fetch.cache)),
        next_step(
            fetch,
            FetchState::AwaitFallbackHead { cache_modified },
            FetchEventView::Head { status, last_modified: Some(last_modified) },
        ) == (FetchState::Loaded, FetchActionView::ServeCache(fetch.cache)),
{
}

/// A client error on the URL of the archive leads to the URL without
/// `.zip`, and the body that comes from there is the manifest.
pub proof fn lemma_client_error_falls_back(fetch: ManifestFetchView, status: u16, body: Seq<u8>)
    requires
        is_client_error(status),
    ensures
        next_step(fetch, FetchState::AwaitGet, FetchEventView::Body { status, body }) == (
            FetchState::AwaitFallbackGet,
            FetchActionView::Get(fetch.fallback_url),
        ),
        vstd::utf8::valid_utf8(body) ==> next_step(
            fetch,
            FetchState::AwaitFallbackGet,
            FetchEventView::Body { status: 200, body },
        ) == (
            FetchState::Loaded,
            FetchActionView::Store { cache: fetch.cache, manifest: vstd::utf8::decode_utf8(body) },
        ),
{
}

/// A manifest that cannot be read is fetched once more, the cache file
/// left aside; where what comes then cannot be read either, the fetch
/// fails with what is wrong with it.
pub proof fn lemma_unreadable_is_fetched_once_more(
    fetch: ManifestFetchView,
    first: Seq<char>,
    second: Seq<char>,
)
    ensures
        next_step(fetch, FetchState::Loaded, FetchEventView::Unreadable(first)) == (
            FetchState::AwaitGetAgain,
            FetchActionView::Get(fetch.url),
        ),
        next_step(fetch, FetchState::LoadedAgain, FetchEventView::Unreadable(second)) == (
            FetchState::Finished,
            FetchActionView::Fail(FetchFailure::Unreadable(second)),
        ),
{
}

/// The fetch of the manifest for the Lua that is compatible with
/// `manifest_version` from the server at `server_url`, with its cache file
/// in `cache_dir`. Where the URL of the archive cannot be made, or the URL
/// of the manifest not zipped cannot be made of it, there is none, but the
/// message of the URL parser.
pub open spec fn fetch_of(
    server_url: Seq<char>,
    manifest_version: Seq<char>,
    namespace: Option<Seq<char>>,
    cache_dir: Seq<char>,
) -> Result<ManifestFetchView, Seq<char>> {
    match manifest_url_outcome(server_url, manifest_version, namespace) {
        Ok(url) => match fallback_url_outcome(url) {
            Ok(fallback_url) => Ok(
                ManifestFetchView {
                    url,
                    fallback_url,
                    entry_name: manifest_entry_name(manifest_version),
                    cache: join_path_spec(cache_dir, cache_file_name(url)),
                },
            ),
            Err(m) => Err(m),
        },
        Err(m) => Err(m),
    }
}

impl ManifestFetch {
    /// The fetch of the manifest for `version` from the server at
    /// `server_url`, with its cache file in `cache_dir`. It fails, with the
    /// message of the URL parser, exactly where one of the two URLs cannot
    /// be made.
    pub fn new(server_url: &str, version: LuaVersion, namespace: Option<&str>, cache_dir: &str)
        -> (r: Result<Self, ManifestFromServerError>)
        ensures
            match r {
                Ok(f) => fetch_of(
                    server_url@,
                    version.compatibility_text(),
                    match namespace {
                        Some(n) => Some(n@),
                        None => None,
                    },
                    cache_dir@,
                ) == Ok::<ManifestFetchView, Seq<char>>(f@),
                Err(e) => fetch_of(
                    server_url@,
                    version.compatibility_text(),
                    match namespace {
                        Some(n) => Some(n@),
                        None => None,
                    },
                    cache_dir@,
                ) matches Err(m) && e@ == FetchFailure::Url(m),
            },
    {
        let manifest_version = version.version_compatibility_str();
        let url = match mk_manifest_url(server_url, manifest_version.as_str(), namespace) {
            Ok(u) => u,
            Err(e) => {
                return Err(ManifestFromServerError::Url(e));
            },
        };
        let fallback_url = match fallback_unzipped_url(url.as_str()) {
            Ok(u) => u,
            Err(e) => {
                return Err(ManifestFromServerError::Url(e));
            },
        };
        let entry_name = concat("manifest-", manifest_version.as_str());
        let cache = mk_manifest_cache(url.as_str(), cache_dir);
        Ok(ManifestFetch { url, fallback_url, entry_name, cache })
    }

    /// How a fetch starts: in the state `CheckCache`, with a look at the
    /// cache file.
    pub fn start(&self) -> (r: (FetchState, FetchAction))
        ensures
            r.0 == FetchState::CheckCache,
            r.1@ == FetchActionView::CheckCache(self@.cache),
    {
        (FetchState::CheckCache, FetchAction::CheckCache(self.cache.clone()))
    }

    /// How a fetch starts that does not look at the cache: with the request
    /// for the archive. The cache is still written, and a manifest that
    /// cannot be read is not fetched yet another time.
    pub fn start_from_server(&self) -> (r: (FetchState, FetchAction))
        ensures
            r.0 == FetchState::AwaitGetAgain,
            r.1@ == FetchActionView::Get(self@.url),
    {
        (FetchState::AwaitGetAgain, FetchAction::Get(self.url.clone()))
    }

    /// What follows from the headers of the manifest on the server.
    fn on_head(&self, cache_modified: u64, last_modified: Option<String>) -> (r: (
        FetchState,
        FetchAction,
    ))
        ensures
            (r.0, r.1@) == after_head(
                self@,
                cache_modified,
                match last_modified {
                    Some(t) => Some(t@),
                    None => None,
                },
            ),
    {
        match last_modified {
            None => (FetchState::Loaded, FetchAction::ServeCache(self.cache.clone())),
            Some(text) => match http_date_seconds(text.as_str()) {
                None => (
                    FetchState::Finished,
                    FetchAction::Fail(ManifestFromServerError::InvalidDate(text)),
                ),
                Some(server_modified) => if server_modified > cache_modified {
                    (FetchState::AwaitGet, FetchAction::Get(self.url.clone()))
                } else {
                    (FetchState::Loaded, FetchAction::ServeCache(self.cache.clone()))
                },
            },
        }
    }

    /// What follows from a body that is the text of the manifest.
    fn on_text(&self, body: Vec<u8>, done: FetchState) -> (r: (FetchState, FetchAction))
        ensures
            (r.0, r.1@) == after_text(self@, body@, done),
    {
        match utf8_text(body) {
            Some(manifest) => (
                done,
                FetchAction::Store { cache: self.cache.clone(), manifest },
            ),
            None => (FetchState::Finished, FetchAction::Fail(ManifestFromServerError::FromUtf8)),
        }
    }

    /// What follows from a body that is the archive of the manifest.
    fn on_archive(&self, body: Vec<u8>, done: FetchState) -> (r: (FetchState, FetchAction))
        ensures
            (r.0, r.1@) == after_archive(self@, body@, done),
    {
        match zip_entry(body.as_slice(), self.entry_name.as_str()) {
            Ok(content) => self.on_text(content, done),
            Err(ZipFailure::Read(m)) => (
                FetchState::Finished,
                FetchAction::Fail(ManifestFromServerError::ZipRead(self.url.clone(), m)),
            ),
            Err(ZipFailure::Extract(m)) => (
                FetchState::Finished,
                FetchAction::Fail(ManifestFromServerError::ZipExtract(self.url.clone(), m)),
            ),
            Err(ZipFailure::Corrupt(m)) => (
                FetchState::Finished,
                FetchAction::Fail(ManifestFromServerError::ZipExtract(self.url.clone(), m)),
            ),
        }
    }

    /// The step of the protocol: given where the fetch stands and what has
    /// happened, where it stands now and what the caller is to do.
    pub fn step(&self, state: FetchState, event: FetchEvent) -> (r: (FetchState, FetchAction))
        ensures
            (r.0, r.1@) == next_step(self@, state, event@),
    {
        match (state, event) {
            (FetchState::CheckCache, FetchEvent::CacheChecked(Some(t))) => (
                FetchState::AwaitHead { cache_modified: t },
                FetchAction::Head(self.url.clone()),
            ),
            (FetchState::CheckCache, FetchEvent::CacheChecked(None)) => (
                FetchState::AwaitGet,
                FetchAction::Get(self.url.clone()),
            ),
            (FetchState::AwaitHead { cache_modified }, FetchEvent::Head { status, last_modified }) => {
                if 400 <= status && status < 500 {
                    (
                        FetchState::AwaitFallbackHead { cache_modified },
                        FetchAction::Head(self.fallback_url.clone()),
                    )
                } else if 400 <= status && status < 600 {
                    (
                        FetchState::Finished,
                        FetchAction::Fail(ManifestFromServerError::Status(status)),
                    )
                } else {
                    self.on_head(cache_modified, last_modified)
                }
            },
            (
                FetchState::AwaitFallbackHead { cache_modified },
                FetchEvent::Head { status, last_modified },
            ) => {
                if 400 <= status && status < 600 {
                    (
                        FetchState::Finished,
                        FetchAction::Fail(ManifestFromServerError::Status(status)),
                    )
                } else {
                    self.on_head(cache_modified, last_modified)
                }
            },
            (FetchState::AwaitGet, FetchEvent::Body { status, body }) => {
                if 400 <= status && status < 500 {
                    (FetchState::AwaitFallbackGet, FetchAction::Get(self.fallback_url.clone()))
                } else if 400 <= status && status < 600 {
                    (
                        FetchState::Finished,
                        FetchAction::Fail(ManifestFromServerError::Status(status)),
                    )
                } else {
                    self.on_archive(body, FetchState::Loaded)
                }
            },
            (FetchState::AwaitFallbackGet, FetchEvent::Body { status, body }) => {
                if 400 <= status && status < 600 {
                    (
                        FetchState::Finished,
                        FetchAction::Fail(ManifestFromServerError::Status(status)),
                    )
                } else {
                    self.on_text(body, FetchState::Loaded)
                }
            },
            (FetchState::Loaded, FetchEvent::Unreadable(_)) => (
                FetchState::AwaitGetAgain,
                FetchAction::Get(self.url.clone()),
            ),
            (FetchState::AwaitGetAgain, FetchEvent::Body { status, body }) => {
                if 400 <= status && status < 500 {
                    (
                        FetchState::AwaitFallbackGetAgain,
                        FetchAction::Get(self.fallback_url.clone()),
                    )
                } else if 400 <= status && status < 600 {
                    (
                        FetchState::Finished,
                        FetchAction::Fail(ManifestFromServerError::Status(status)),
                    )
                } else {
                    self.on_archive(body, FetchState::LoadedAgain)
                }
            },
            (FetchState::AwaitFallbackGetAgain, FetchEvent::Body { status, body }) => {
                if 400 <= status && status < 600 {
                    (
                        FetchState::Finished,
                        FetchAction::Fail(ManifestFromServerError::Status(status)),
                    )
                } else {
                    self.on_text(body, FetchState::LoadedAgain)
                }
            },
            (FetchState::LoadedAgain, FetchEvent::Unreadable(m)) => (
                FetchState::Finished,
                FetchAction::Fail(ManifestFromServerError::Unreadable(m)),
            ),
            (_, FetchEvent::Failed(m)) => (
                FetchState::Finished,
                FetchAction::Fail(ManifestFromServerError::Request(m)),
            ),
            _ => (
                FetchState::Finished,
                FetchAction::Fail(ManifestFromServerError::UnexpectedEvent),
            ),
        }
    }
}

} // verus!
