use live_poly_trans::dylib::find_dylib_with;
use live_poly_trans::dylib::{dylib_candidates, dylib_name, whisper_cpp_library_file_name};
use live_poly_trans::models::{Model, ModelManager};
use live_poly_trans::paths::{join, parent_of};

const OS: &str = "macos";

#[test]
fn a_bundled_app_finds_the_backend_in_its_frameworks() {
    let exe = "/Applications/Kikimimic.app/Contents/MacOS/Kikimimic";
    let candidates = dylib_candidates(exe, dylib_name(OS));
    assert!(
        candidates.contains(&format!(
            "/Applications/Kikimimic.app/Contents/Frameworks/{}",
            dylib_name(OS)
        )),
        "{candidates:?}"
    );
}

#[test]
fn a_checkout_finds_the_backend_beside_the_executable_first() {
    let candidates = dylib_candidates("/repo/target/release/kikimimic", dylib_name(OS));
    assert_eq!(candidates[0], format!("/repo/target/release/{}", dylib_name(OS)));
}

#[test]
fn a_debug_shell_can_use_a_release_built_backend() {
    let candidates = dylib_candidates("/repo/target/debug/kikimimic", dylib_name(OS));
    assert!(
        candidates.contains(&format!("/repo/target/release/{}", dylib_name(OS))),
        "{candidates:?}"
    );
}

#[test]
fn the_same_directory_is_never_searched_twice() {
    let candidates = dylib_candidates("/repo/target/release/kikimimic", dylib_name(OS));
    let mut sorted = candidates.clone();
    sorted.sort();
    sorted.dedup();
    assert_eq!(sorted.len(), candidates.len(), "{candidates:?}");
}

#[test]
fn candidates_are_listed_most_specific_first() {
    let candidates = dylib_candidates("/repo/target/debug/kikimimic", "lib.so");
    assert_eq!(
        candidates,
        vec![
            "/repo/target/debug/lib.so".to_string(),
            "/repo/target/Frameworks/lib.so".to_string(),
            "/repo/target/release/lib.so".to_string(),
        ]
    );
    assert_eq!(dylib_candidates("kikimimic", "lib.so"), vec!["lib.so".to_string()]);
}

#[test]
fn backend_names_follow_the_platform() {
    assert_eq!(dylib_name("macos"), "libkkm_translate_ggml.dylib");
    assert_eq!(dylib_name("windows"), "kkm_translate_ggml.dll");
    assert_eq!(dylib_name("linux"), "libkkm_translate_ggml.so");
}

#[test]
fn picks_platform_specific_whisper_cpp_shim_library_names() {
    assert_eq!(whisper_cpp_library_file_name("macos"), "liblpt_whisper_backend.dylib");
    assert_eq!(whisper_cpp_library_file_name("windows"), "lpt_whisper_backend.dll");
    assert_eq!(whisper_cpp_library_file_name("linux"), "liblpt_whisper_backend.so");
}

#[test]
fn paths_compose_the_posix_way() {
    assert_eq!(parent_of("/a/b"), Some("/a".to_string()));
    assert_eq!(parent_of("/a"), Some("/".to_string()));
    assert_eq!(parent_of("/"), None);
    assert_eq!(parent_of("a"), Some(String::new()));
    assert_eq!(parent_of(""), None);
}

#[test]
fn a_parent_passes_over_separators_and_dots_as_std_does() {
    assert_eq!(parent_of("a/b/"), Some("a".to_string()));
    assert_eq!(parent_of("a//b"), Some("a".to_string()));
    assert_eq!(parent_of("a/./b"), Some("a".to_string()));
    assert_eq!(parent_of("a/b/."), Some("a".to_string()));
    assert_eq!(parent_of("/a/"), Some("/".to_string()));
    assert_eq!(parent_of("./a"), Some(".".to_string()));
    assert_eq!(parent_of("."), Some(String::new()));
    assert_eq!(parent_of("./"), Some(String::new()));
    assert_eq!(parent_of(".."), Some(String::new()));
    assert_eq!(parent_of("/."), None);
    assert_eq!(parent_of("//"), None);
    for p in ["a/b/", "a//b", "a/./b", "/a/", "./a", ".", "..", "/.", "/a/b/c", "x"] {
        assert_eq!(
            parent_of(p),
            std::path::Path::new(p).parent().map(|q| q.to_str().unwrap().to_string()),
            "{p}"
        );
    }
    assert_eq!(join("/a", "b"), "/a/b");
    assert_eq!(join("/a/", "b"), "/a/b");
    assert_eq!(join("", "b"), "b");
    assert_eq!(join("/a", "/b"), "/b");
}

fn manager() -> ModelManager {
    ModelManager::new(vec!["/data".to_string(), "/repo/models".to_string()])
}

fn no_env(_: &str) -> Option<String> {
    None
}

#[test]
fn the_first_directory_that_has_the_file_wins() {
    let found = manager()
        .resolve_with(Model::Asr, no_env, |p: &str| p.starts_with("/repo"))
        .unwrap();
    assert_eq!(found, "/repo/models/ggml-large-v3-turbo-q8_0.bin");
}

#[test]
fn a_downloaded_model_shadows_the_checkouts_copy() {
    let found = manager().resolve_with(Model::Vad, no_env, |_: &str| true).unwrap();
    assert_eq!(found, "/data/ggml-silero-v5.1.2.bin");
}

#[test]
fn an_env_override_wins_over_every_directory() {
    let found = manager()
        .resolve_with(
            Model::Translator,
            |name: &str| (name == "KKM_LLM_MODEL").then(|| "/tmp/other.gguf".to_string()),
            |_: &str| true,
        )
        .unwrap();
    assert_eq!(found, "/tmp/other.gguf");
}

#[test]
fn an_override_pointing_nowhere_is_an_error_not_a_fallback() {
    let err = manager()
        .resolve_with(
            Model::Asr,
            |_: &str| Some("/tmp/missing.bin".to_string()),
            |p: &str| !p.starts_with("/tmp"),
        )
        .unwrap_err()
        .to_string();
    assert!(err.contains("KKM_WHISPER_MODEL"), "{err}");
    assert!(err.contains("/tmp/missing.bin"), "{err}");
}

#[test]
fn a_missing_model_names_everywhere_it_was_looked_for() {
    let err = manager()
        .resolve_with(Model::Asr, no_env, |_: &str| false)
        .unwrap_err()
        .to_string();
    assert!(err.contains("/data"), "{err}");
    assert!(err.contains("/repo/models"), "{err}");
    assert!(err.contains("ggml-large-v3-turbo-q8_0.bin"), "{err}");
    assert_eq!(
        err,
        "no ggml-large-v3-turbo-q8_0.bin in /data, /repo/models (set KKM_WHISPER_MODEL to use another path)"
    );
}

#[test]
fn the_override_is_used_as_given_or_refused() {
    let exe = "/Applications/Kikimimic.app/Contents/MacOS/Kikimimic";
    let name = "libkkm_translate_ggml.dylib";
    assert_eq!(
        find_dylib_with(Some("/tmp/x.dylib".to_string()), exe, name, |p: &str| p == "/tmp/x.dylib"),
        Ok("/tmp/x.dylib".to_string())
    );
    assert_eq!(
        find_dylib_with(Some("/tmp/x.dylib".to_string()), exe, name, |_p: &str| true == false),
        Err("LPT_TRANSLATE_DYLIB points at /tmp/x.dylib, which does not exist".to_string())
    );
}

#[test]
fn the_first_existing_candidate_wins() {
    let exe = "/repo/target/debug/app";
    let name = "libkkm_translate_ggml.so";
    // the release build exists but so does the Frameworks copy, which comes first
    let found = find_dylib_with(None, exe, name, |p: &str| {
        p == "/repo/target/Frameworks/libkkm_translate_ggml.so"
            || p == "/repo/target/release/libkkm_translate_ggml.so"
    });
    assert_eq!(found, Ok("/repo/target/Frameworks/libkkm_translate_ggml.so".to_string()));
    let missing = find_dylib_with(None, exe, name, |_p: &str| false);
    assert_eq!(
        missing,
        Err("no libkkm_translate_ggml.so in /repo/target/debug/libkkm_translate_ggml.so, \
             /repo/target/Frameworks/libkkm_translate_ggml.so, \
             /repo/target/release/libkkm_translate_ggml.so \
             (build it with `cargo build --release -p kkm-translate-ggml`)"
            .to_string())
    );
}

#[test]
fn an_executable_inside_frameworks_lists_that_directory_once() {
    let candidates = live_poly_trans::dylib::dylib_candidates("/a/Frameworks/k", "libx.dylib");
    assert_eq!(
        candidates,
        vec!["/a/Frameworks/libx.dylib", "/a/release/libx.dylib", "/a/debug/libx.dylib"]
    );
}
