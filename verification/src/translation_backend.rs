//! Hosted translation backends: what a request is, how DeepL names
//! languages, which DeepL endpoint a key belongs to, where an Ollama server
//! takes chat requests, and the arguments the macOS keychain tool is run
//! with. The HTTP exchanges and the keychain tool run in the application.
use vstd::prelude::*;

use crate::text::{
    before_first, chars_of, decimal, decimal_string, first_of, lemma_first_of_unique, opt_chars, str_eq, string_of,
    trim, trimmed,
};

verus! {

/// Which service translates.
#[derive(Debug, Clone, Copy, PartialEq, Eq, Structural)]
pub enum TranslationBackendKind {
    Apple,
    DeepL,
    Ollama,
}

/// One sentence to translate, with both languages named.
#[derive(Debug, Clone, PartialEq, Eq)]
pub struct TranslationRequest {
    pub text: String,
    pub source_language: String,
    pub target_language: String,
}

impl TranslationRequest {
    /// A request for `text` (trimmed), or `None` when there is nothing to
    /// translate: blank text, or the same language on both sides.
    pub fn new(text: &str, source_language: &str, target_language: &str) -> (r: Option<Self>)
        ensures
            (trimmed(text@).len() == 0 || source_language@ == target_language@) ==> r is None,
            !(trimmed(text@).len() == 0 || source_language@ == target_language@) ==> {
                &&& r is Some
                &&& r->0.text@ == trimmed(text@)
                &&& r->0.source_language@ == source_language@
                &&& r->0.target_language@ == target_language@
            },
    {
        let text = trim(text);
        if text.as_str().is_empty() || str_eq(source_language, target_language) {
            return None;
        }
        Some(
            TranslationRequest {
                text,
                source_language: String::from_str(source_language),
                target_language: String::from_str(target_language),
            },
        )
    }
}

/// Why a translation did not happen.
#[derive(Debug, Clone, PartialEq, Eq)]
pub enum TranslationError {
    MissingCredential(String),
    Network(String),
    Keychain(String),
    InvalidResponse(String),
}

pub open spec fn error_message(e: TranslationError) -> Seq<char> {
    match e {
        TranslationError::MissingCredential(m) => m@,
        TranslationError::Network(m) => m@,
        TranslationError::Keychain(m) => m@,
        TranslationError::InvalidResponse(m) => m@,
    }
}

impl TranslationError {
    /// The message the error reads as: its own text, whatever the kind.
    pub fn to_string(&self) -> (s: String)
        ensures
            s@ == error_message(*self),
    {
        match self {
            TranslationError::MissingCredential(m) => m.clone(),
            TranslationError::Network(m) => m.clone(),
            TranslationError::Keychain(m) => m.clone(),
            TranslationError::InvalidResponse(m) => m.clone(),
        }
    }
}

pub const DEEPL_API_ENDPOINT: &'static str = "https://api.deepl.com/v2/translate";
pub const DEEPL_FREE_API_ENDPOINT: &'static str = "https://api-free.deepl.com/v2/translate";
pub const KEYCHAIN_SERVICE: &'static str = "live-poly-trans";
pub const DEEPL_API_KEY_ACCOUNT: &'static str = "deepl-api-key";

/// The characters of each string.
pub open spec fn arg_views(v: Seq<String>) -> Seq<Seq<char>> {
    v.map_values(|s: String| s@)
}

/// Arguments for `security` to print a stored password.
pub fn keychain_find_password_args(service: &str, account: &str) -> (args: Vec<String>)
    ensures
        arg_views(args@) == seq!["find-generic-password"@, "-s"@, service@, "-a"@, account@, "-w"@],
{
    let args = vec![
        String::from_str("find-generic-password"),
        String::from_str("-s"),
        String::from_str(service),
        String::from_str("-a"),
        String::from_str(account),
        String::from_str("-w"),
    ];
    assert(arg_views(args@) =~= seq!["find-generic-password"@, "-s"@, service@, "-a"@, account@, "-w"@]);
    args
}

/// Arguments for `security` to store (or replace, `-U`) a password.
pub fn keychain_write_password_args(service: &str, account: &str, password: &str) -> (args: Vec<String>)
    ensures
        arg_views(args@) == seq![
            "add-generic-password"@,
            "-U"@,
            "-s"@,
            service@,
            "-a"@,
            account@,
            "-w"@,
            password@,
        ],
{
    let args = vec![
        String::from_str("add-generic-password"),
        String::from_str("-U"),
        String::from_str("-s"),
        String::from_str(service),
        String::from_str("-a"),
        String::from_str(account),
        String::from_str("-w"),
        String::from_str(password),
    ];
    assert(arg_views(args@) =~= seq![
        "add-generic-password"@,
        "-U"@,
        "-s"@,
        service@,
        "-a"@,
        account@,
        "-w"@,
        password@,
    ]);
    args
}

/// Arguments for `security` to delete a stored password.
pub fn keychain_delete_password_args(service: &str, account: &str) -> (args: Vec<String>)
    ensures
        arg_views(args@) == seq!["delete-generic-password"@, "-s"@, service@, "-a"@, account@],
{
    let args = vec![
        String::from_str("delete-generic-password"),
        String::from_str("-s"),
        String::from_str(service),
        String::from_str("-a"),
        String::from_str(account),
    ];
    assert(arg_views(args@) =~= seq!["delete-generic-password"@, "-s"@, service@, "-a"@, account@]);
    args
}

/// A character's code with ASCII capitals folded to lower case.
pub open spec fn folded(c: char) -> u32 {
    if 65 <= (c as u32) && (c as u32) <= 90 {
        ((c as u32) + 32) as u32
    } else {
        c as u32
    }
}

/// `needle` stands in `hay` at `at` once `hay`'s ASCII capitals are folded.
pub open spec fn occurs_folded_at(hay: Seq<char>, needle: Seq<char>, at: int) -> bool {
    &&& 0 <= at
    &&& at + needle.len() <= hay.len()
    &&& forall|k: int| 0 <= k < needle.len() ==> folded(#[trigger] hay[at + k]) == needle[k] as u32
}

/// `hay` with its ASCII capitals folded to lower case contains `needle`.
pub open spec fn lowercase_contains_spec(hay: Seq<char>, needle: Seq<char>) -> bool {
    exists|at: int| occurs_folded_at(hay, needle, at)
}

fn fold_char(c: char) -> (r: u32)
    ensures
        r == folded(c),
{
    let v = c as u32;
    if 65 <= v && v <= 90 {
        v + 32
    } else {
        v
    }
}

fn occurs_folded(hay: &[char], needle: &[char], at: usize) -> (b: bool)
    requires
        at + needle@.len() <= hay@.len(),
    ensures
        b == occurs_folded_at(hay@, needle@, at as int),
{
    let hay_len = hay.len();
    let mut k: usize = 0;
    while k < needle.len()
        invariant
            k <= needle@.len(),
            hay_len == hay@.len(),
            at + needle@.len() <= hay@.len(),
            forall|j: int| 0 <= j < k ==> folded(#[trigger] hay@[at + j]) == needle@[j] as u32,
        decreases needle@.len() - k,
    {
        assert(at + k < hay@.len());
        let i: usize = at + k;
        if fold_char(hay[i]) != needle[k] as u32 {
            return false;
        }
        k = k + 1;
    }
    true
}

/// Whether `hay`, read with ASCII capitals in lower case, contains `needle`.
pub fn lowercase_contains(hay: &str, needle: &str) -> (b: bool)
    ensures
        b == lowercase_contains_spec(hay@, needle@),
{
    let h = chars_of(hay);
    let n = chars_of(needle);
    if n.len() > h.len() {
        assert forall|i: int| !occurs_folded_at(hay@, needle@, i) by {}
        return false;
    }
    let mut at: usize = 0;
    while at <= h.len() - n.len()
        invariant
            n@.len() <= h@.len(),
            at <= h@.len() - n@.len() + 1,
            h@ == hay@,
            n@ == needle@,
            forall|i: int| 0 <= i < at ==> !occurs_folded_at(hay@, needle@, i),
        decreases h@.len() - n@.len() + 1 - at,
    {
        if occurs_folded(&h, &n, at) {
            return true;
        }
        at = at + 1;
    }
    assert forall|i: int| !occurs_folded_at(hay@, needle@, i) by {}
    false
}

/// The keychain tool's answer for an entry that is not there: exit status
/// 44, or a message saying so in any letter case.
pub open spec fn keychain_not_found_spec(code: Option<i32>, message: Seq<char>) -> bool {
    code == Some(44i32) || lowercase_contains_spec(message, "could not be found"@)
}

pub fn keychain_not_found(code: Option<i32>, message: &str) -> (b: bool)
    ensures
        b == keychain_not_found_spec(code, message@),
{
    match code {
        Some(c) => {
            if c == 44 {
                return true;
            }
        },
        None => {},
    }
    lowercase_contains(message, "could not be found")
}

/// What a failed keychain run reads as: its error output, trimmed, or the
/// exit status where it printed nothing.
pub fn keychain_error_message(stderr: &str, status: &str) -> (m: String)
    ensures
        trimmed(stderr@).len() > 0 ==> m@ == trimmed(stderr@),
        trimmed(stderr@).len() == 0 ==> m@ == "security exited with "@ + status@,
{
    proof {
        reveal_strlit("security exited with ");
    }
    let t = trim(stderr);
    if t.as_str().is_empty() {
        let mut m = String::from_str("security exited with ");
        m.append(status);
        m
    } else {
        t
    }
}

/// A password as the keychain tool printed it: trimmed, and `None` when
/// nothing is left. The same rule decides what a DeepL key is stored as
/// (`None`: delete the entry).
pub fn stored_secret(text: &str) -> (s: Option<String>)
    ensures
        trimmed(text@).len() == 0 ==> s is None,
        trimmed(text@).len() > 0 ==> (s matches Some(v) && v@ == trimmed(text@)),
{
    let t = trim(text);
    if t.as_str().is_empty() {
        None
    } else {
        Some(t)
    }
}

/// The message a failed keychain run reads as.
pub open spec fn keychain_failure_spec(stderr: Seq<char>, status: Seq<char>) -> Seq<char> {
    if trimmed(stderr).len() > 0 {
        trimmed(stderr)
    } else {
        "security exited with "@ + status
    }
}

/// What a run of the keychain tool to read a password comes to, from how
/// it ended (`success`, exit `code`) and what it printed: the trimmed
/// password (`None` when blank), `None` for an entry that is not there,
/// else the tool's failure.
pub fn keychain_read_result(success: bool, code: Option<i32>, stdout: &str, stderr: &str, status: &str) -> (r: Result<Option<String>, TranslationError>)
    ensures
        success ==> (match r {
            Ok(Some(p)) => trimmed(stdout@).len() > 0 && p@ == trimmed(stdout@),
            Ok(None) => trimmed(stdout@).len() == 0,
            Err(_) => false,
        }),
        !success && keychain_not_found_spec(code, keychain_failure_spec(stderr@, status@)) ==> r matches Ok(None),
        !success && !keychain_not_found_spec(code, keychain_failure_spec(stderr@, status@)) ==> (r matches Err(
            TranslationError::Keychain(m),
        ) && m@ == keychain_failure_spec(stderr@, status@)),
{
    if success {
        return Ok(stored_secret(stdout));
    }
    let message = keychain_error_message(stderr, status);
    if keychain_not_found(code, message.as_str()) {
        Ok(None)
    } else {
        Err(TranslationError::Keychain(message))
    }
}

/// What a run of the keychain tool to store a password comes to.
pub fn keychain_write_result(success: bool, stderr: &str, status: &str) -> (r: Result<(), TranslationError>)
    ensures
        success ==> r is Ok,
        !success ==> (r matches Err(TranslationError::Keychain(m)) && m@ == keychain_failure_spec(stderr@, status@)),
{
    if success {
        Ok(())
    } else {
        Err(TranslationError::Keychain(keychain_error_message(stderr, status)))
    }
}

/// What a run of the keychain tool to delete a password comes to: an entry
/// that was not there is as good as deleted.
pub fn keychain_delete_result(success: bool, code: Option<i32>, stderr: &str, status: &str) -> (r: Result<(), TranslationError>)
    ensures
        (success || keychain_not_found_spec(code, keychain_failure_spec(stderr@, status@))) ==> r is Ok,
        !(success || keychain_not_found_spec(code, keychain_failure_spec(stderr@, status@))) ==> (r matches Err(
            TranslationError::Keychain(m),
        ) && m@ == keychain_failure_spec(stderr@, status@)),
{
    if success {
        return Ok(());
    }
    let message = keychain_error_message(stderr, status);
    if keychain_not_found(code, message.as_str()) {
        Ok(())
    } else {
        Err(TranslationError::Keychain(message))
    }
}

/// `c` with `_` read as `-` and ASCII letters in upper case.
pub open spec fn code_char(c: char) -> char {
    if c == '_' {
        '-'
    } else if 'a' <= c && c <= 'z' {
        ((c as int) - 32) as char
    } else {
        c
    }
}

pub open spec fn normalized_code(s: Seq<char>) -> Seq<char> {
    s.map_values(|c: char| code_char(c))
}

/// The language code DeepL expects: `_` read as `-`, upper case, and
/// regional variants dropped except for English (whose variants DeepL keeps)
/// and Japanese written with its region.
pub open spec fn deepl_code_spec(language: Seq<char>) -> Seq<char> {
    let upper = normalized_code(language);
    if upper == "JA-JP"@ {
        "JA"@
    } else if upper == "EN"@ || upper == "EN-US"@ || upper == "EN-GB"@ {
        upper
    } else if before_first(upper, '-').len() > 0 {
        before_first(upper, '-')
    } else {
        upper
    }
}

fn upper_code_char(c: char) -> (d: char)
    ensures
        d == code_char(c),
{
    if c == '_' {
        '-'
    } else if c >= 'a' && c <= 'z' {
        let b: u8 = (c as u8) - 32;
        b as char
    } else {
        c
    }
}

pub fn deepl_language_code(language: &str) -> (code: String)
    ensures
        code@ == deepl_code_spec(language@),
{
    proof {
        reveal_strlit("JA-JP");
        reveal_strlit("JA");
        reveal_strlit("EN");
        reveal_strlit("EN-US");
        reveal_strlit("EN-GB");
    }
    let chars = chars_of(language);
    let mut upper: Vec<char> = Vec::new();
    let mut i: usize = 0;
    while i < chars.len()
        invariant
            chars@ == language@,
            i <= chars@.len(),
            upper@ == normalized_code(chars@).take(i as int),
        decreases chars@.len() - i,
    {
        upper.push(upper_code_char(chars[i]));
        proof {
            assert(upper@ =~= normalized_code(chars@).take(i + 1));
        }
        i = i + 1;
    }
    assert(upper@ =~= normalized_code(language@));
    let upper_s = string_of(upper.as_slice());
    if str_eq(upper_s.as_str(), "JA-JP") {
        return String::from_str("JA");
    }
    if str_eq(upper_s.as_str(), "EN") || str_eq(upper_s.as_str(), "EN-US") || str_eq(upper_s.as_str(), "EN-GB") {
        return upper_s;
    }
    let mut k: usize = 0;
    while k < upper.len() && upper[k] != '-'
        invariant
            k <= upper@.len(),
            forall|j: int| 0 <= j < k ==> upper@[j] != '-',
        decreases upper@.len() - k,
    {
        k = k + 1;
    }
    proof {
        assert(first_of(upper@, '-', k as int));
        lemma_first_of_unique(upper@, '-', k as int);
    }
    if k > 0 {
        let mut prefix: Vec<char> = Vec::new();
        let mut j: usize = 0;
        while j < k
            invariant
                k <= upper@.len(),
                j <= k,
                prefix@ == upper@.take(j as int),
            decreases k - j,
        {
            prefix.push(upper[j]);
            proof {
                assert(prefix@ =~= upper@.take(j + 1));
            }
            j = j + 1;
        }
        string_of(prefix.as_slice())
    } else {
        upper_s
    }
}

/// The form fields of a DeepL request.
pub fn deepl_form_fields(request: &TranslationRequest) -> (fields: Vec<(&'static str, String)>)
    ensures
        fields@.len() == 3,
        fields@[0].0@ == "text"@ && fields@[0].1@ == request.text@,
        fields@[1].0@ == "source_lang"@ && fields@[1].1@ == deepl_code_spec(request.source_language@),
        fields@[2].0@ == "target_lang"@ && fields@[2].1@ == deepl_code_spec(request.target_language@),
{
    proof {
        reveal_strlit("text");
        reveal_strlit("source_lang");
        reveal_strlit("target_lang");
    }
    vec![
        ("text", request.text.clone()),
        ("source_lang", deepl_language_code(request.source_language.as_str())),
        ("target_lang", deepl_language_code(request.target_language.as_str())),
    ]
}

/// Whether a DeepL key is a free-plan key (it ends in `:fx`).
pub open spec fn is_free_key(api_key: Seq<char>) -> bool {
    let t = trimmed(api_key);
    t.len() >= 3 && t.subrange(t.len() - 3, t.len() as int) == ":fx"@
}

/// The endpoint a DeepL key is served at.
pub fn deepl_endpoint_for_key(api_key: &str) -> (endpoint: &'static str)
    ensures
        is_free_key(api_key@) ==> endpoint@ == DEEPL_FREE_API_ENDPOINT@,
        !is_free_key(api_key@) ==> endpoint@ == DEEPL_API_ENDPOINT@,
{
    proof {
        reveal_strlit(":fx");
    }
    let t = chars_of(trim(api_key).as_str());
    let n = t.len();
    let free = n >= 3 && t[n - 3] == ':' && t[n - 2] == 'f' && t[n - 1] == 'x';
    proof {
        if n >= 3 {
            let tail = t@.subrange(n - 3, n as int);
            if free {
                assert(tail =~= ":fx"@);
            } else {
                assert(tail[0] == t@[n - 3]);
                assert(tail[1] == t@[n - 2]);
                assert(tail[2] == t@[n - 1]);
                assert(tail != ":fx"@);
            }
        }
    }
    if free {
        DEEPL_FREE_API_ENDPOINT
    } else {
        DEEPL_API_ENDPOINT
    }
}

/// `s` without any trailing `c`.
pub open spec fn strip_trailing(s: Seq<char>, c: char) -> Seq<char>
    decreases s.len(),
{
    if s.len() > 0 && s.last() == c {
        strip_trailing(s.drop_last(), c)
    } else {
        s
    }
}

/// Where an Ollama server at `endpoint` takes chat requests.
pub fn ollama_chat_url(endpoint: &str) -> (url: String)
    ensures
        url@ == strip_trailing(endpoint@, '/') + "/api/chat"@,
{
    let chars = chars_of(endpoint);
    let mut end: usize = chars.len();
    assert(chars@.take(chars@.len() as int) =~= chars@);
    while end > 0 && chars[end - 1] == '/'
        invariant
            end <= chars@.len(),
            strip_trailing(chars@.take(end as int), '/') == strip_trailing(endpoint@, '/'),
            chars@ == endpoint@,
        decreases end,
    {
        proof {
            assert(chars@.take(end - 1) =~= chars@.take(end as int).drop_last());
        }
        end = end - 1;
    }
    let mut out: Vec<char> = Vec::new();
    let mut i: usize = 0;
    while i < end
        invariant
            end <= chars@.len(),
            i <= end,
            out@ == chars@.take(i as int),
        decreases end - i,
    {
        out.push(chars[i]);
        proof {
            assert(out@ =~= chars@.take(i + 1));
        }
        i = i + 1;
    }
    proof {
        if end > 0 {
            assert(chars@.take(end as int).last() == chars@[end - 1]);
        }
        assert(strip_trailing(chars@.take(end as int), '/') == chars@.take(end as int));
    }
    let mut url = string_of(out.as_slice());
    url.append("/api/chat");
    url
}

/// A DeepL backend: the key, and the endpoint requests go to.
#[derive(Debug, Clone)]
pub struct DeepLHttpBackend {
    pub endpoint: String,
    pub api_key: String,
}

impl DeepLHttpBackend {
    /// A backend at the endpoint the key belongs to.
    pub fn new(api_key: &str) -> (b: Self)
        ensures
            b.api_key@ == api_key@,
            is_free_key(api_key@) ==> b.endpoint@ == DEEPL_FREE_API_ENDPOINT@,
            !is_free_key(api_key@) ==> b.endpoint@ == DEEPL_API_ENDPOINT@,
    {
        let endpoint = String::from_str(deepl_endpoint_for_key(api_key));
        DeepLHttpBackend { endpoint, api_key: String::from_str(api_key) }
    }

    /// A backend at a given endpoint.
    pub fn with_endpoint(api_key: &str, endpoint: &str) -> (b: Self)
        ensures
            b.api_key@ == api_key@,
            b.endpoint@ == endpoint@,
    {
        DeepLHttpBackend { endpoint: String::from_str(endpoint), api_key: String::from_str(api_key) }
    }

    pub fn kind(&self) -> (k: TranslationBackendKind)
        ensures
            k == TranslationBackendKind::DeepL,
    {
        TranslationBackendKind::DeepL
    }

    /// The `Authorization` header value for this backend's key, or the
    /// error for a blank key.
    pub fn authorization(&self) -> (r: Result<String, TranslationError>)
        ensures
            trimmed(self.api_key@).len() == 0 ==> (r matches Err(TranslationError::MissingCredential(m))
                && m@ == "DeepL API key is not configured"@),
            trimmed(self.api_key@).len() > 0 ==> (r matches Ok(h) && h@ == "DeepL-Auth-Key "@ + trimmed(
                self.api_key@,
            )),
    {
        proof {
            reveal_strlit("DeepL API key is not configured");
            reveal_strlit("DeepL-Auth-Key ");
        }
        let key = trim(self.api_key.as_str());
        if key.as_str().is_empty() {
            return Err(TranslationError::MissingCredential(String::from_str("DeepL API key is not configured")));
        }
        let mut h = String::from_str("DeepL-Auth-Key ");
        h.append(key.as_str());
        Ok(h)
    }
}

/// An Ollama backend: the server and the model that translates.
#[derive(Debug, Clone)]
pub struct OllamaHttpBackend {
    pub endpoint: String,
    pub model: String,
}

impl OllamaHttpBackend {
    pub fn new(endpoint: &str, model: &str) -> (b: Self)
        ensures
            b.endpoint@ == endpoint@,
            b.model@ == model@,
    {
        OllamaHttpBackend { endpoint: String::from_str(endpoint), model: String::from_str(model) }
    }

    pub fn kind(&self) -> (k: TranslationBackendKind)
        ensures
            k == TranslationBackendKind::Ollama,
    {
        TranslationBackendKind::Ollama
    }

    /// The model to ask (trimmed), or the error for a blank one.
    pub fn model_name(&self) -> (r: Result<String, TranslationError>)
        ensures
            trimmed(self.model@).len() == 0 ==> (r matches Err(TranslationError::MissingCredential(m))
                && m@ == "Ollama model is not configured"@),
            trimmed(self.model@).len() > 0 ==> (r matches Ok(m) && m@ == trimmed(self.model@)),
    {
        proof {
            reveal_strlit("Ollama model is not configured");
        }
        let model = trim(self.model.as_str());
        if model.as_str().is_empty() {
            return Err(TranslationError::MissingCredential(String::from_str("Ollama model is not configured")));
        }
        Ok(model)
    }
}

/// The instruction an Ollama model is given.
pub open spec fn ollama_instruction_spec(source: Seq<char>, target: Seq<char>) -> Seq<char> {
    "Translate"@ + " from "@ + source + " to "@ + target + ". Return only the translated text."@
}

pub fn ollama_instruction(request: &TranslationRequest) -> (s: String)
    ensures
        s@ == ollama_instruction_spec(request.source_language@, request.target_language@),
{
    proof {
        reveal_strlit("Translate");
        reveal_strlit(" from ");
        reveal_strlit(" to ");
        reveal_strlit(". Return only the translated text.");
    }
    let mut s = String::from_str("Translate");
    s.append(" from ");
    s.append(request.source_language.as_str());
    s.append(" to ");
    s.append(request.target_language.as_str());
    s.append(". Return only the translated text.");
    s
}

/// The error for an HTTP status a backend answered with.
pub fn http_status_error(code: u16, body: &str) -> (e: TranslationError)
    ensures
        e matches TranslationError::Network(m) && m@ == "HTTP "@ + decimal(code as nat) + ": "@ + body@,
{
    proof {
        reveal_strlit("HTTP ");
        reveal_strlit(": ");
    }
    let mut m = String::from_str("HTTP ");
    let digits = decimal_string(code as u64);
    m.append(digits.as_str());
    m.append(": ");
    m.append(body);
    TranslationError::Network(m)
}

/// What a DeepL reply amounts to, given the text of its first translation
/// (`None` when the reply has none, or it is not a string).
pub fn deepl_reply(first_text: Option<String>) -> (r: Result<String, TranslationError>)
    ensures
        match first_text {
            Some(t) => r == Ok::<String, TranslationError>(t),
            None => r matches Err(TranslationError::InvalidResponse(m)) && m@ == "missing translations[0].text"@,
        },
{
    proof {
        reveal_strlit("missing translations[0].text");
    }
    match first_text {
        Some(t) => Ok(t),
        None => Err(TranslationError::InvalidResponse(String::from_str("missing translations[0].text"))),
    }
}

/// What an Ollama chat reply amounts to, given its message content (`None`
/// when the reply has none, or it is not a string): the content trimmed,
/// and a blank one is no answer.
pub fn ollama_reply(content: Option<String>) -> (r: Result<String, TranslationError>)
    ensures
        match content {
            Some(c) => if trimmed(c@).len() > 0 {
                r matches Ok(t) && t@ == trimmed(c@)
            } else {
                r matches Err(TranslationError::InvalidResponse(m)) && m@ == "missing message.content"@
            },
            None => r matches Err(TranslationError::InvalidResponse(m)) && m@ == "missing message.content"@,
        },
{
    proof {
        reveal_strlit("missing message.content");
    }
    match content {
        Some(c) => {
            let t = trim(c.as_str());
            if t.as_str().is_empty() {
                Err(TranslationError::InvalidResponse(String::from_str("missing message.content")))
            } else {
                Ok(t)
            }
        },
        None => Err(TranslationError::InvalidResponse(String::from_str("missing message.content"))),
    }
}

} // verus!

verus! {

/// A DeepL reply body read as JSON: the text of `translations[0].text`
/// (`None` when that is missing or not a string), or the JSON parser's
/// message when the body is not JSON.
pub uninterp spec fn deepl_reply_text(body: Seq<char>) -> Result<Option<Seq<char>>, Seq<char>>;

/// An Ollama chat reply body read as JSON: the text of `message.content`
/// (`None` when that is missing or not a string), or the JSON parser's
/// message when the body is not JSON.
pub uninterp spec fn ollama_reply_content(body: Seq<char>) -> Result<Option<Seq<char>>, Seq<char>>;

/// `serde_json::from_str::<Value>` on the body, with `translations[0].text`
/// picked out as a string, and the parser's error as its message. Claimed:
/// the result is the named reading of the body, which depends on the body
/// alone.
#[verifier::external_body]
fn read_deepl_reply(body: &str) -> (r: Result<Option<String>, String>)
    ensures
        match r {
            Ok(t) => deepl_reply_text(body@) == Ok::<Option<Seq<char>>, Seq<char>>(opt_chars(t)),
            Err(e) => deepl_reply_text(body@) == Err::<Option<Seq<char>>, Seq<char>>(e@),
        },
{
    serde_json::from_str::<serde_json::Value>(body)
        .map(|v| {
            v.get("translations").and_then(serde_json::Value::as_array).and_then(|a| a.first())
                .and_then(|t| t.get("text")).and_then(serde_json::Value::as_str).map(str::to_string)
        })
        .map_err(|e| e.to_string())
}

/// `serde_json::from_str::<Value>` on the body, with `message.content`
/// picked out as a string, and the parser's error as its message. Claimed:
/// the result is the named reading of the body, which depends on the body
/// alone.
#[verifier::external_body]
fn read_ollama_reply(body: &str) -> (r: Result<Option<String>, String>)
    ensures
        match r {
            Ok(c) => ollama_reply_content(body@) == Ok::<Option<Seq<char>>, Seq<char>>(opt_chars(c)),
            Err(e) => ollama_reply_content(body@) == Err::<Option<Seq<char>>, Seq<char>>(e@),
        },
{
    serde_json::from_str::<serde_json::Value>(body)
        .map(|v| v.get("message").and_then(|m| m.get("content")).and_then(serde_json::Value::as_str).map(str::to_string))
        .map_err(|e| e.to_string())
}

/// A DeepL reply body as a translation: the first translation's text; a
/// body that is not JSON, or has no such text, is an invalid response.
pub fn parse_deepl_response(body: &str) -> (r: Result<String, TranslationError>)
    ensures
        match deepl_reply_text(body@) {
            Err(e) => r matches Err(TranslationError::InvalidResponse(m)) && m@ == e,
            Ok(Some(t)) => r matches Ok(s) && s@ == t,
            Ok(None) => r matches Err(TranslationError::InvalidResponse(m)) && m@ == "missing translations[0].text"@,
        },
{
    match read_deepl_reply(body) {
        Err(e) => Err(TranslationError::InvalidResponse(e)),
        Ok(t) => deepl_reply(t),
    }
}

/// An Ollama chat reply body as a translation: the message content,
/// trimmed; a body that is not JSON, or whose content is missing or blank,
/// is an invalid response.
pub fn parse_ollama_chat_response(body: &str) -> (r: Result<String, TranslationError>)
    ensures
        match ollama_reply_content(body@) {
            Err(e) => r matches Err(TranslationError::InvalidResponse(m)) && m@ == e,
            Ok(Some(c)) => if trimmed(c).len() > 0 {
                r matches Ok(t) && t@ == trimmed(c)
            } else {
                r matches Err(TranslationError::InvalidResponse(m)) && m@ == "missing message.content"@
            },
            Ok(None) => r matches Err(TranslationError::InvalidResponse(m)) && m@ == "missing message.content"@,
        },
{
    match read_ollama_reply(body) {
        Err(e) => Err(TranslationError::InvalidResponse(e)),
        Ok(c) => ollama_reply(c),
    }
}

} // verus!
