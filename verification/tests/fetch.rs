use lux_lib::config::LuaVersion;
use lux_lib::fetch::{
    fallback_unzipped_url, mk_manifest_cache, mk_manifest_url, FetchAction, FetchEvent,
    FetchState, ManifestFetch, ManifestFromServerError,
};
use std::io::Write;

fn test_fetch() -> ManifestFetch {
    ManifestFetch::new("https://luarocks.org/", LuaVersion::Lua51, None, "/cache").unwrap()
}

fn zipped(name: &str, content: &[u8]) -> Vec<u8> {
    let mut writer = zip::ZipWriter::new(std::io::Cursor::new(Vec::new()));
    let options = zip::write::SimpleFileOptions::default()
        .compression_method(zip::CompressionMethod::Stored);
    writer.start_file(name, options).unwrap();
    writer.write_all(content).unwrap();
    writer.finish().unwrap().into_inner()
}

#[test]
fn manifest_urls_and_cache_file() {
    let fetch = test_fetch();
    assert_eq!(fetch.url, "https://luarocks.org/manifest-5.1.zip");
    assert_eq!(fetch.fallback_url, "https://luarocks.org/manifest-5.1");
    assert_eq!(fetch.entry_name, "manifest-5.1");
    assert_eq!(fetch.cache, "/cache/https___luarocks.org_manifest-5.1");
    assert_eq!(
        mk_manifest_url("https://luarocks.org/", "5.4", Some("neorocks")),
        Ok("https://luarocks.org/manifests/neorocks/manifest-5.4.zip".to_string())
    );
    assert!(mk_manifest_url("not a url", "5.4", None).is_err());
    assert_eq!(
        fallback_unzipped_url("https://luarocks.org/manifest-5.1.zip.zip"),
        Ok("https://luarocks.org/manifest-5.1".to_string())
    );
    assert_eq!(
        mk_manifest_cache("http://a/b?c=\"d\"|e\\f*<g>.zip", "cache"),
        "cache/http___a_b_c=_d__e_f__g_"
    );
    let jit = ManifestFetch::new("https://luarocks.org", LuaVersion::LuaJIT, None, "/c").unwrap();
    assert_eq!(jit.url, "https://luarocks.org/manifest-5.1.zip");
    assert!(matches!(
        ManifestFetch::new("::", LuaVersion::Lua51, None, "/c"),
        Err(ManifestFromServerError::Url(_))
    ));
}

#[test]
fn manifest_is_served_from_the_cache_when_the_server_has_nothing_newer() {
    let fetch = test_fetch();
    let (state, action) = fetch.start();
    assert_eq!(action, FetchAction::CheckCache(fetch.cache.clone()));
    // Sat, 20 Jan 2024 13:14:12 GMT is 1705756452.
    let (state, action) = fetch.step(state, FetchEvent::CacheChecked(Some(1705756452)));
    assert_eq!(state, FetchState::AwaitHead { cache_modified: 1705756452 });
    assert_eq!(action, FetchAction::Head(fetch.url.clone()));
    let (state, action) = fetch.step(
        state,
        FetchEvent::Head {
            status: 200,
            last_modified: Some("Sat, 20 Jan 2024 13:14:12 GMT".to_string()),
        },
    );
    assert_eq!(state, FetchState::Loaded);
    assert_eq!(action, FetchAction::ServeCache(fetch.cache.clone()));

    // The same again gives the same: nothing is fetched, nothing is written.
    let (state, _) = fetch.start();
    let (state, _) = fetch.step(state, FetchEvent::CacheChecked(Some(1705756452)));
    let (_, action) = fetch.step(
        state,
        FetchEvent::Head {
            status: 200,
            last_modified: Some("Sat, 20 Jan 2024 13:14:12 GMT".to_string()),
        },
    );
    assert_eq!(action, FetchAction::ServeCache(fetch.cache.clone()));
}

#[test]
fn manifest_is_fetched_when_the_server_is_newer_or_nothing_is_cached() {
    let fetch = test_fetch();
    let head = FetchState::AwaitHead { cache_modified: 1705756451 };
    let (state, action) = fetch.step(
        head,
        FetchEvent::Head {
            status: 200,
            last_modified: Some("Sat, 20 Jan 2024 13:14:12 GMT".to_string()),
        },
    );
    assert_eq!(state, FetchState::AwaitGet);
    assert_eq!(action, FetchAction::Get(fetch.url.clone()));
    let (state, action) =
        fetch.step(head, FetchEvent::Head { status: 200, last_modified: None });
    assert_eq!(
        (state, action),
        (FetchState::Loaded, FetchAction::ServeCache(fetch.cache.clone()))
    );
    let (state, action) = fetch.step(FetchState::CheckCache, FetchEvent::CacheChecked(None));
    assert_eq!((state, action), (FetchState::AwaitGet, FetchAction::Get(fetch.url.clone())));
    let (_, action) = fetch.step(
        head,
        FetchEvent::Head { status: 200, last_modified: Some("yesterday".to_string()) },
    );
    assert_eq!(
        action,
        FetchAction::Fail(ManifestFromServerError::InvalidDate("yesterday".to_string()))
    );
    let (state, action) = fetch.start_from_server();
    assert_eq!((state, action), (FetchState::AwaitGetAgain, FetchAction::Get(fetch.url.clone())));
}

#[test]
fn manifest_is_taken_out_of_the_archive() {
    let fetch = test_fetch();
    let body = zipped("manifest-5.1", b"repository = {}");
    let (state, action) = fetch.step(FetchState::AwaitGet, FetchEvent::Body { status: 200, body });
    assert_eq!(state, FetchState::Loaded);
    assert_eq!(
        action,
        FetchAction::Store { cache: fetch.cache.clone(), manifest: "repository = {}".to_string() }
    );
    let body = zipped("manifest-5.4", b"repository = {}");
    let (_, action) = fetch.step(FetchState::AwaitGet, FetchEvent::Body { status: 200, body });
    assert!(matches!(action, FetchAction::Fail(ManifestFromServerError::ZipExtract(_, _))));
    let (_, action) = fetch
        .step(FetchState::AwaitGet, FetchEvent::Body { status: 200, body: b"no zip".to_vec() });
    assert!(matches!(action, FetchAction::Fail(ManifestFromServerError::ZipRead(_, _))));
    let body = zipped("manifest-5.1", &[0xff, 0xfe]);
    let (_, action) = fetch.step(FetchState::AwaitGet, FetchEvent::Body { status: 200, body });
    assert_eq!(action, FetchAction::Fail(ManifestFromServerError::FromUtf8));
}

#[test]
fn manifest_cache_honors_4xx_fallback() {
    let fetch = test_fetch();
    let (state, _) = fetch.start();
    let (state, action) = fetch.step(state, FetchEvent::CacheChecked(None));
    assert_eq!(action, FetchAction::Get("https://luarocks.org/manifest-5.1.zip".to_string()));
    let (state, action) =
        fetch.step(state, FetchEvent::Body { status: 404, body: b"not found".to_vec() });
    assert_eq!(state, FetchState::AwaitFallbackGet);
    assert_eq!(action, FetchAction::Get("https://luarocks.org/manifest-5.1".to_string()));
    let (state, action) = fetch.step(
        state,
        FetchEvent::Body { status: 200, body: b"repository = { say = {} }".to_vec() },
    );
    assert_eq!(state, FetchState::Loaded);
    assert_eq!(
        action,
        FetchAction::Store {
            cache: fetch.cache.clone(),
            manifest: "repository = { say = {} }".to_string()
        }
    );
}

#[test]
fn head_falls_back_and_server_errors_end_the_fetch() {
    let fetch = test_fetch();
    let head = FetchState::AwaitHead { cache_modified: 10 };
    let (state, action) =
        fetch.step(head, FetchEvent::Head { status: 403, last_modified: None });
    assert_eq!(state, FetchState::AwaitFallbackHead { cache_modified: 10 });
    assert_eq!(action, FetchAction::Head(fetch.fallback_url.clone()));
    let (_, action) = fetch.step(state, FetchEvent::Head { status: 404, last_modified: None });
    assert_eq!(action, FetchAction::Fail(ManifestFromServerError::Status(404)));
    let (_, action) = fetch.step(head, FetchEvent::Head { status: 500, last_modified: None });
    assert_eq!(action, FetchAction::Fail(ManifestFromServerError::Status(500)));
    let (_, action) =
        fetch.step(FetchState::AwaitGet, FetchEvent::Body { status: 503, body: Vec::new() });
    assert_eq!(action, FetchAction::Fail(ManifestFromServerError::Status(503)));
    let (_, action) = fetch
        .step(FetchState::AwaitFallbackGet, FetchEvent::Body { status: 404, body: Vec::new() });
    assert_eq!(action, FetchAction::Fail(ManifestFromServerError::Status(404)));
    let (_, action) = fetch.step(head, FetchEvent::Failed("no route".to_string()));
    assert_eq!(
        action,
        FetchAction::Fail(ManifestFromServerError::Request("no route".to_string()))
    );
    let (state, action) = fetch.step(FetchState::Finished, FetchEvent::CacheChecked(None));
    assert_eq!(state, FetchState::Finished);
    assert_eq!(action, FetchAction::Fail(ManifestFromServerError::UnexpectedEvent));
}

#[test]
fn unreadable_manifest_is_fetched_once_more() {
    let fetch = test_fetch();
    let (state, action) =
        fetch.step(FetchState::Loaded, FetchEvent::Unreadable("unexpected symbol".to_string()));
    assert_eq!((state, action), (FetchState::AwaitGetAgain, FetchAction::Get(fetch.url.clone())));
    let (state, action) =
        fetch.step(state, FetchEvent::Body { status: 404, body: Vec::new() });
    assert_eq!(
        (state, action),
        (FetchState::AwaitFallbackGetAgain, FetchAction::Get(fetch.fallback_url.clone()))
    );
    let (state, action) =
        fetch.step(state, FetchEvent::Body { status: 200, body: b"repository = {".to_vec() });
    assert_eq!(state, FetchState::LoadedAgain);
    assert_eq!(
        action,
        FetchAction::Store { cache: fetch.cache.clone(), manifest: "repository = {".to_string() }
    );
    let (state, action) =
        fetch.step(state, FetchEvent::Unreadable("unfinished table".to_string()));
    assert_eq!(state, FetchState::Finished);
    assert_eq!(
        action,
        FetchAction::Fail(ManifestFromServerError::Unreadable("unfinished table".to_string()))
    );
    let body = zipped("manifest-5.1", b"repository = {}");
    let (state, _) = fetch.step(FetchState::AwaitGetAgain, FetchEvent::Body { status: 200, body });
    assert_eq!(state, FetchState::LoadedAgain);
    let (_, action) = fetch.step(
        FetchState::AwaitGet,
        FetchEvent::Unreadable("nothing was handed out".to_string()),
    );
    assert_eq!(action, FetchAction::Fail(ManifestFromServerError::UnexpectedEvent));
}

#[test]
fn a_fetch_without_its_urls_is_refused() {
    assert!(matches!(
        ManifestFetch::new("not a url", LuaVersion::Lua51, None, "cache"),
        Err(ManifestFromServerError::Url(_))
    ));
    assert!(ManifestFetch::new("https://luarocks.org/", LuaVersion::Lua51, None, "cache").is_ok());
}
