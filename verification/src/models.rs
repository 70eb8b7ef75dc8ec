//! Finding the model files.
//!
//! Three models are loaded at runtime — the recogniser, the VAD, and the
//! translator. This is the one place that decides where each one is: an
//! explicit override first, then a list of directories in order.
use vstd::prelude::*;

use crate::paths::{join, join_spec};
use crate::text::string_of;

verus! {

/// The default file name for a model the app ships with a choice of.
#[derive(Debug, Clone, Copy, PartialEq, Eq, Structural)]
pub enum Model {
    /// The speech recogniser (whisper GGML).
    Asr,
    /// Silero VAD, in whisper.cpp's GGML packaging.
    Vad,
    /// The translation LLM (GGUF).
    Translator,
}

pub open spec fn env_var_spec(m: Model) -> &'static str {
    match m {
        Model::Asr => "KKM_WHISPER_MODEL",
        Model::Vad => "KKM_VAD_MODEL",
        Model::Translator => "KKM_LLM_MODEL",
    }
}

pub open spec fn default_file_spec(m: Model) -> &'static str {
    match m {
        Model::Asr => "ggml-large-v3-turbo-q8_0.bin",
        Model::Vad => "ggml-silero-v5.1.2.bin",
        Model::Translator => "Qwen3-4B-Instruct-2507-Q4_K_M.gguf",
    }
}

impl Model {
    /// The environment variable that overrides this model outright, with a
    /// full path: how a measurement run swaps in a different model size.
    pub fn env_var(self) -> (v: &'static str)
        ensures
            v == env_var_spec(self),
    {
        match self {
            Model::Asr => "KKM_WHISPER_MODEL",
            Model::Vad => "KKM_VAD_MODEL",
            Model::Translator => "KKM_LLM_MODEL",
        }
    }

    /// The file looked for in each search directory.
    pub fn default_file(self) -> (f: &'static str)
        ensures
            f == default_file_spec(self),
    {
        match self {
            Model::Asr => "ggml-large-v3-turbo-q8_0.bin",
            Model::Vad => "ggml-silero-v5.1.2.bin",
            Model::Translator => "Qwen3-4B-Instruct-2507-Q4_K_M.gguf",
        }
    }
}

/// Why a model could not be found.
#[derive(Debug, Clone, PartialEq, Eq)]
pub enum ModelError {
    /// The override variable names a path that does not exist. Loading a
    /// different model than the one named would make a measurement run
    /// silently meaningless, so this is an error, not a fallback.
    OverrideMissing { var: String, path: String },
    /// No search directory holds the file; every place looked at is listed.
    NotFound { file: String, searched: Vec<String>, var: String },
}

/// `parts` joined with `sep` between them.
pub open spec fn joined(parts: Seq<Seq<char>>, sep: Seq<char>) -> Seq<char>
    decreases parts.len(),
{
    if parts.len() == 0 {
        Seq::empty()
    } else if parts.len() == 1 {
        parts[0]
    } else {
        joined(parts.drop_last(), sep) + sep + parts.last()
    }
}

/// The characters of each string.
pub open spec fn views(v: Seq<String>) -> Seq<Seq<char>> {
    v.map_values(|s: String| s@)
}

/// The message an error reads as.
pub open spec fn model_error_message(e: ModelError) -> Seq<char> {
    match e {
        ModelError::OverrideMissing { var, path } => var@ + " points at "@ + path@
            + ", which does not exist"@,
        ModelError::NotFound { file, searched, var } => "no "@ + file@ + " in "@
            + joined(views(searched@), ", "@) + " (set "@ + var@ + " to use another path)"@,
    }
}

/// `parts` joined with `sep`.
pub fn join_strings(parts: &Vec<String>, sep: &str) -> (out: String)
    ensures
        out@ == joined(views(parts@), sep@),
{
    let mut out = String::new();
    let mut i: usize = 0;
    while i < parts.len()
        invariant
            i <= parts@.len(),
            out@ == joined(views(parts@).take(i as int), sep@),
        decreases parts@.len() - i,
    {
        proof {
            assert(views(parts@).take(i + 1).drop_last() =~= views(parts@).take(i as int));
        }
        if i > 0 {
            out.append(sep);
        }
        out.append(parts[i].as_str());
        proof {
            if i == 0 {
                assert(out@ =~= views(parts@).take(1)[0]);
            }
        }
        i = i + 1;
    }
    assert(views(parts@).take(parts@.len() as int) =~= views(parts@));
    out
}

impl ModelError {
    /// The human-readable message, naming the variable and every place
    /// looked at — "model not found" without the list is a support ticket.
    pub fn to_string(&self) -> (s: String)
        ensures
            s@ == model_error_message(*self),
    {
        match self {
            ModelError::OverrideMissing { var, path } => {
                let mut s = var.clone();
                s.append(" points at ");
                s.append(path.as_str());
                s.append(", which does not exist");
                s
            },
            ModelError::NotFound { file, searched, var } => {
                let mut s = String::from_str("no ");
                s.append(file.as_str());
                s.append(" in ");
                let list = join_strings(searched, ", ");
                s.append(list.as_str());
                s.append(" (set ");
                s.append(var.as_str());
                s.append(" to use another path)");
                s
            },
        }
    }
}

/// Whether `f` answered `b` when asked about a path reading `p`.
pub open spec fn said<X: Fn(&str) -> bool>(f: X, p: Seq<char>, b: bool) -> bool {
    exists|a: &str| a@ == p && #[trigger] f.ensures((a,), b)
}

/// Resolves a model to a path that exists, searching the given directories in
/// order. The first directory is the one a download would land in; the last is
/// the checkout's `models/`.
pub struct ModelManager {
    dirs: Vec<String>,
}

impl ModelManager {
    /// The search directories, in order.
    pub closed spec fn spec_dirs(&self) -> Seq<Seq<char>> {
        views(self.dirs@)
    }

    pub fn new(dirs: Vec<String>) -> (m: Self)
        ensures
            m.spec_dirs() == views(dirs@),
    {
        ModelManager { dirs }
    }

    /// Where `model` is, or an error naming every place that was looked at.
    /// The environment (`env`, asked for the override variable) and the
    /// filesystem (`file_exists`) are injected so the decision can be exercised
    /// without either.
    ///
    /// An explicit override is used as given: pointing it at a missing file
    /// is a mistake worth reporting, not a reason to quietly load a
    /// different model than the one that was asked for. Otherwise the first
    /// directory holding the model's default file wins.
    pub fn resolve_with<E, X>(&self, model: Model, env: E, file_exists: X) -> (r: Result<String, ModelError>) where
        E: Fn(&str) -> Option<String>,
        X: Fn(&str) -> bool,
        requires
            forall|n: &str| env.requires((n,)),
            forall|q: &str| file_exists.requires((q,)),
        ensures
            match r {
                Ok(p) => {
                    ||| exists|o: String| #[trigger] env.ensures((env_var_spec(model),), Some(o))
                        && p@ == o@ && said(file_exists, o@, true)
                    ||| {
                        &&& env.ensures((env_var_spec(model),), None)
                        &&& exists|k: int| {
                            &&& 0 <= k < self.spec_dirs().len()
                            &&& p@ == join_spec(#[trigger] self.spec_dirs()[k], default_file_spec(model)@)
                            &&& said(file_exists, p@, true)
                            &&& forall|j: int| 0 <= j < k ==> said(file_exists,
                                join_spec(#[trigger] self.spec_dirs()[j], default_file_spec(model)@), false)
                        }
                    }
                },
                Err(ModelError::OverrideMissing { var, path }) => {
                    &&& var@ == env_var_spec(model)@
                    &&& exists|o: String| #[trigger] env.ensures((env_var_spec(model),), Some(o))
                        && path@ == o@ && said(file_exists, o@, false)
                },
                Err(ModelError::NotFound { file, searched, var }) => {
                    &&& file@ == default_file_spec(model)@
                    &&& views(searched@) == self.spec_dirs()
                    &&& var@ == env_var_spec(model)@
                    &&& env.ensures((env_var_spec(model),), None)
                    &&& forall|j: int| 0 <= j < self.spec_dirs().len() ==> said(file_exists,
                        join_spec(#[trigger] self.spec_dirs()[j], default_file_spec(model)@), false)
                },
            },
    {
        let var = model.env_var();
        let overridden = env(var);
        match overridden {
            Some(path) => {
                let present = file_exists(path.as_str());
                if present {
                    return Ok(path);
                }
                return Err(ModelError::OverrideMissing { var: String::from_str(var), path });
            },
            None => {},
        }
        let file = model.default_file();
        let mut i: usize = 0;
        while i < self.dirs.len()
            invariant
                i <= self.dirs@.len(),
                env.ensures((env_var_spec(model),), None),
                file == default_file_spec(model),
                forall|q: &str| file_exists.requires((q,)),
                forall|j: int| 0 <= j < i ==> said(file_exists,
                    join_spec(#[trigger] self.spec_dirs()[j], default_file_spec(model)@), false),
            decreases self.dirs@.len() - i,
        {
            let candidate = join(self.dirs[i].as_str(), file);
            let present = file_exists(candidate.as_str());
            proof {
                assert(self.spec_dirs()[i as int] == self.dirs@[i as int]@);
            }
            if present {
                return Ok(candidate);
            }
            i = i + 1;
        }
        Err(ModelError::NotFound {
            file: String::from_str(file),
            searched: self.dirs.clone(),
            var: String::from_str(var),
        })
    }
}

} // verus!
