//! Finding the translation backend library, which the app loads at run time
//! rather than linking (its ggml and whisper's cannot share one image).
//! Where it is differs between a checkout and a bundled app.
use vstd::prelude::*;

use crate::paths::{join, join_spec, parent_of, parent_spec};
use crate::models::{join_strings, joined, said};
use crate::text::str_eq;

verus! {

/// The backend's file name on the named operating system (`std::env::consts::OS`
/// spelling: `macos`, `windows`, anything else is taken as another Unix).
pub open spec fn dylib_name_spec(target_os: Seq<char>) -> Seq<char> {
    if target_os == "macos"@ {
        "libkkm_translate_ggml.dylib"@
    } else if target_os == "windows"@ {
        "kkm_translate_ggml.dll"@
    } else {
        "libkkm_translate_ggml.so"@
    }
}

/// The backend's file name on `target_os`.
pub fn dylib_name(target_os: &str) -> (name: &'static str)
    ensures
        name@ == dylib_name_spec(target_os@),
{
    if str_eq(target_os, "macos") {
        "libkkm_translate_ggml.dylib"
    } else if str_eq(target_os, "windows") {
        "kkm_translate_ggml.dll"
    } else {
        "libkkm_translate_ggml.so"
    }
}

/// `s` with `x` appended, unless it is already there.
pub open spec fn push_new(s: Seq<Seq<char>>, x: Seq<char>) -> Seq<Seq<char>> {
    if s.contains(x) { s } else { s.push(x) }
}

/// Where the backend might be, most specific first: beside the executable,
/// then a bundle's `Frameworks`, then the sibling `release` and `debug`
/// build directories — each directory once.
pub open spec fn dylib_candidates_spec(exe: Seq<char>, name: Seq<char>) -> Seq<Seq<char>> {
    match parent_spec(exe) {
        None => seq![name],
        Some(dir) => {
            let first = seq![join_spec(dir, name)];
            match parent_spec(dir) {
                None => first,
                Some(contents) => {
                    let framework = push_new(first, join_spec(join_spec(contents, "Frameworks"@), name));
                    let release = push_new(framework, join_spec(join_spec(contents, "release"@), name));
                    push_new(release, join_spec(join_spec(contents, "debug"@), name))
                },
            }
        },
    }
}

proof fn lemma_push_new_keeps_distinct(s: Seq<Seq<char>>, x: Seq<char>)
    requires
        s.no_duplicates(),
    ensures
        push_new(s, x).no_duplicates(),
{
    if !s.contains(x) {
        let t = s.push(x);
        assert forall|i: int, j: int| 0 <= i < t.len() && 0 <= j < t.len() && i != j implies t[i] != t[j] by {
            if i < s.len() && j < s.len() {
            } else if i == s.len() {
                assert(s[j] == t[j]);
            } else {
                assert(s[i] == t[i]);
            }
        }
    }
}

/// No directory is searched twice: the candidates are all different.
pub proof fn lemma_candidates_are_distinct(exe: Seq<char>, name: Seq<char>)
    ensures
        dylib_candidates_spec(exe, name).no_duplicates(),
{
    match parent_spec(exe) {
        None => {
            assert(seq![name].no_duplicates());
        },
        Some(dir) => {
            let first = seq![join_spec(dir, name)];
            assert(first.no_duplicates());
            match parent_spec(dir) {
                None => {},
                Some(contents) => {
                    let framework = push_new(first, join_spec(join_spec(contents, "Frameworks"@), name));
                    lemma_push_new_keeps_distinct(first, join_spec(join_spec(contents, "Frameworks"@), name));
                    let release = push_new(framework, join_spec(join_spec(contents, "release"@), name));
                    lemma_push_new_keeps_distinct(framework, join_spec(join_spec(contents, "release"@), name));
                    lemma_push_new_keeps_distinct(release, join_spec(join_spec(contents, "debug"@), name));
                },
            }
        },
    }
}

/// The characters of each string.
pub open spec fn views(v: Seq<String>) -> Seq<Seq<char>> {
    v.map_values(|s: String| s@)
}

/// `candidates` with `path` appended unless it is already there.
fn push_if_new(candidates: &mut Vec<String>, path: String)
    ensures
        views(final(candidates)@) == push_new(views(old(candidates)@), path@),
{
    let mut i: usize = 0;
    while i < candidates.len()
        invariant
            i <= candidates@.len(),
            forall|k: int| 0 <= k < i ==> candidates@[k]@ != path@,
        decreases candidates@.len() - i,
    {
        if str_eq(candidates[i].as_str(), path.as_str()) {
            proof {
                assert(views(candidates@)[i as int] == path@);
                assert(views(candidates@).contains(path@));
            }
            return;
        }
        i = i + 1;
    }
    proof {
        assert(!views(candidates@).contains(path@)) by {
            if views(candidates@).contains(path@) {
                let k = choose|k: int| 0 <= k < views(candidates@).len() && views(candidates@)[k] == path@;
                assert(candidates@[k]@ == path@);
            }
        }
    }
    let ghost before = candidates@;
    candidates.push(path);
    assert(views(candidates@) =~= views(before).push(path@));
}

/// Where the backend named `name` might be, given where the running
/// executable is, most specific first.
///
/// A bundled app has it in `Contents/Frameworks`; a checkout has it beside
/// the executable in `target/<profile>`. The sibling profile directories are
/// there because the backend is slow to compile, so it gets built once in
/// release while the shell is rebuilt in debug all day.
pub fn dylib_candidates(exe: &str, name: &str) -> (candidates: Vec<String>)
    ensures
        views(candidates@) == dylib_candidates_spec(exe@, name@),
{
    let dir = match parent_of(exe) {
        None => {
            let v = vec![String::from_str(name)];
            assert(views(v@) =~= seq![name@]);
            return v;
        },
        Some(dir) => dir,
    };
    let mut candidates = vec![join(dir.as_str(), name)];
    assert(views(candidates@) =~= seq![join_spec(dir@, name@)]);
    if let Some(contents) = parent_of(dir.as_str()) {
        let frameworks = join(contents.as_str(), "Frameworks");
        push_if_new(&mut candidates, join(frameworks.as_str(), name));
        let release = join(contents.as_str(), "release");
        push_if_new(&mut candidates, join(release.as_str(), name));
        let debug = join(contents.as_str(), "debug");
        push_if_new(&mut candidates, join(debug.as_str(), name));
    }
    candidates
}

/// The file name of the whisper.cpp shim library on `target_os`.
pub open spec fn whisper_cpp_library_file_name_spec(target_os: Seq<char>) -> Seq<char> {
    if target_os == "macos"@ {
        "liblpt_whisper_backend.dylib"@
    } else if target_os == "windows"@ {
        "lpt_whisper_backend.dll"@
    } else {
        "liblpt_whisper_backend.so"@
    }
}

/// The file name of the whisper.cpp shim library on `target_os`.
pub fn whisper_cpp_library_file_name(target_os: &str) -> (name: &'static str)
    ensures
        name@ == whisper_cpp_library_file_name_spec(target_os@),
{
    if str_eq(target_os, "macos") {
        "liblpt_whisper_backend.dylib"
    } else if str_eq(target_os, "windows") {
        "lpt_whisper_backend.dll"
    } else {
        "liblpt_whisper_backend.so"
    }
}

} // verus!

verus! {

/// Points at a specific build of the backend, for development and bisecting.
pub const DYLIB_ENV: &'static str = "LPT_TRANSLATE_DYLIB";

/// The message when the override names a missing file.
pub open spec fn missing_override_message(path: Seq<char>) -> Seq<char> {
    "LPT_TRANSLATE_DYLIB points at "@ + path + ", which does not exist"@
}

/// The message when no candidate exists.
pub open spec fn not_found_message(name: Seq<char>, candidates: Seq<Seq<char>>) -> Seq<char> {
    "no "@ + name + " in "@ + joined(candidates, ", "@)
        + " (build it with `cargo build --release -p kkm-translate-ggml`)"@
}

/// `p` is the first of `cands` that `f` said exists.
pub open spec fn first_present<X: Fn(&str) -> bool>(f: X, cands: Seq<Seq<char>>, p: Seq<char>) -> bool {
    exists|k: int| {
        &&& 0 <= k < cands.len()
        &&& p == #[trigger] cands[k]
        &&& said(f, p, true)
        &&& forall|j: int| 0 <= j < k ==> said(f, #[trigger] cands[j], false)
    }
}

/// The backend to load: the override if one is set (an error when it names
/// a missing file, rather than quietly loading another build), else the
/// first candidate beside `exe` that exists. `file_exists` is how the
/// filesystem is asked.
pub fn find_dylib_with<X>(override_path: Option<String>, exe: &str, name: &str, file_exists: X) -> (r: Result<String, String>) where
    X: Fn(&str) -> bool,
    requires
        forall|q: &str| file_exists.requires((q,)),
    ensures
        ({
            let cands = dylib_candidates_spec(exe@, name@);
            match override_path {
                Some(o) => match r {
                    Ok(p) => p@ == o@ && said(file_exists, o@, true),
                    Err(m) => m@ == missing_override_message(o@) && said(file_exists, o@, false),
                },
                None => match r {
                    Ok(p) => first_present(file_exists, cands, p@),
                    Err(m) => {
                        &&& m@ == not_found_message(name@, cands)
                        &&& forall|j: int| 0 <= j < cands.len() ==> said(file_exists, #[trigger] cands[j], false)
                    },
                },
            }
        }),
{
    proof {
        reveal_strlit("LPT_TRANSLATE_DYLIB points at ");
        reveal_strlit(", which does not exist");
        reveal_strlit("no ");
        reveal_strlit(" in ");
        reveal_strlit(", ");
        reveal_strlit(" (build it with `cargo build --release -p kkm-translate-ggml`)");
    }
    if let Some(path) = &override_path {
        if file_exists(path.as_str()) {
            return Ok(path.clone());
        }
        let mut m = String::from_str("LPT_TRANSLATE_DYLIB points at ");
        m.append(path.as_str());
        m.append(", which does not exist");
        return Err(m);
    }
    let candidates = dylib_candidates(exe, name);
    let ghost cands = dylib_candidates_spec(exe@, name@);
    let mut i: usize = 0;
    while i < candidates.len()
        invariant
            i <= candidates@.len(),
            override_path is None,
            cands == dylib_candidates_spec(exe@, name@),
            views(candidates@) == cands,
            forall|q: &str| file_exists.requires((q,)),
            forall|j: int| 0 <= j < i ==> said(file_exists, #[trigger] cands[j], false),
        decreases candidates@.len() - i,
    {
        let asked = candidates[i].as_str();
        let present = file_exists(asked);
        proof {
            assert(cands[i as int] == candidates@[i as int]@);
            assert(said(file_exists, asked@, present));
        }
        if present {
            let found = candidates[i].clone();
            proof {
                assert(said(file_exists, found@, true));
                assert(0 <= i < cands.len() && found@ == cands[i as int]);
                assert(first_present(file_exists, cands, found@));
            }
            return Ok(found);
        }
        i = i + 1;
    }
    let mut m = String::from_str("no ");
    m.append(name);
    m.append(" in ");
    let listed = join_strings(&candidates, ", ");
    m.append(listed.as_str());
    m.append(" (build it with `cargo build --release -p kkm-translate-ggml`)");
    Err(m)
}

} // verus!
