//! Per-vendor details of the chat-completion HTTP API: endpoint URL, request
//! headers and user-facing error messages, for OpenAI-compatible vendors and
//! for Anthropic.
use vstd::prelude::*;
use vstd::string::StringSliceAdditionalSpecFns;
use crate::text::{chars_of, decimal, push_decimal, push_str, string_of_range, byte_len};
use crate::validator::{array_field, get, get_field, str_field, JsonValue};

verus! {

/// A provider that speaks the OpenAI chat-completion protocol (DeepSeek,
/// OpenAI, Ollama, OpenWebUI, custom endpoints).
pub struct OpenAiCompatibleProvider {
    name: &'static str,
}

/// The Anthropic messages API.
pub struct AnthropicProvider;

/// `s` without its trailing `'/'` characters (`trim_end_matches('/')`).
pub open spec fn trim_trailing_slashes(s: Seq<char>) -> Seq<char>
    decreases s.len(),
{
    if s.len() > 0 && s.last() == '/' {
        trim_trailing_slashes(s.drop_last())
    } else {
        s
    }
}

/// The base URL without trailing slashes, followed by `path`.
pub open spec fn endpoint(base_url: Seq<char>, path: Seq<char>) -> Seq<char> {
    trim_trailing_slashes(base_url) + path
}

/// Appends `trim_trailing_slashes(base_url)` and then `path` to a new string.
pub(crate) fn endpoint_exec(base_url: &str, path: &str) -> (out: String)
    ensures
        out@ == endpoint(base_url@, path@),
{
    let cs = chars_of(base_url);
    let mut n = cs.len();
    assert(cs@.take(n as int) =~= cs@);
    while n > 0 && cs[n - 1] == '/'
        invariant
            n <= cs.len(),
            trim_trailing_slashes(cs@) == trim_trailing_slashes(cs@.take(n as int)),
        decreases n,
    {
        proof {
            assert(cs@.take(n as int).drop_last() =~= cs@.take(n - 1));
        }
        n = n - 1;
    }
    proof {
        assert(cs@.take(n as int) =~= cs@.subrange(0, n as int));
    }
    let mut out = string_of_range(&cs, 0, n);
    push_str(&mut out, path);
    out
}

/// Number of leading characters of `s` whose UTF-8 encoding takes exactly
/// `n` bytes, when there is such a prefix.
pub open spec fn has_byte_prefix(s: Seq<char>, n: nat) -> bool {
    exists|k: int| 0 <= k <= s.len() && byte_len(s.take(k)) == n
}

/// The first `min(len, 300)` bytes of the error body, as characters.
pub open spec fn error_detail(body: Seq<char>) -> Seq<char> {
    if byte_len(body) <= 300 {
        body
    } else {
        body.take(choose|k: int| 0 <= k <= body.len() && byte_len(body.take(k)) == 300)
    }
}

/// Slicing the error body at byte 300 panics unless that byte starts a
/// character (or the body is shorter).
pub open spec fn error_body_ok(body: Seq<char>) -> bool {
    byte_len(body) <= 300 || has_byte_prefix(body, 300)
}

proof fn lemma_byte_len_take_monotonic(s: Seq<char>, a: int, b: int)
    requires
        0 <= a <= b <= s.len(),
    ensures
        byte_len(s.take(a)) <= byte_len(s.take(b)),
        a < b ==> byte_len(s.take(a)) < byte_len(s.take(b)),
    decreases b - a,
{
    if a < b {
        lemma_byte_len_take_monotonic(s, a, b - 1);
        assert(s.take(b) =~= s.take(b - 1) + seq![s[b - 1]]);
        crate::text::lemma_encode_utf8_append(s.take(b - 1), seq![s[b - 1]]);
        crate::text::lemma_char_width(s[b - 1]);
    }
}

/// The characters of `body` that make up its first `min(len, 300)` bytes.
fn error_detail_exec(body: &str) -> (out: String)
    requires
        error_body_ok(body@),
    ensures
        out@ == error_detail(body@),
{
    let cs = chars_of(body);
    let total = body.as_bytes().len();
    assert(total == byte_len(cs@));
    assert(cs@.subrange(0, cs@.len() as int) =~= cs@);
    if total <= 300 {
        return string_of_range(&cs, 0, cs.len());
    }
    let mut k: usize = 0;
    let mut used: usize = 0;
    let ghost want = choose|k: int| 0 <= k <= cs@.len() && byte_len(cs@.take(k)) == 300;
    proof {
        lemma_byte_len_take_monotonic(cs@, 0, want);
    }
    while used < 300
        invariant
            error_body_ok(cs@),
            byte_len(cs@) > 300,
            0 <= want <= cs@.len(),
            byte_len(cs@.take(want)) == 300,
            k <= want,
            used == byte_len(cs@.take(k as int)),
        decreases want - k,
    {
        assert(k != want);
        proof {
            assert(cs@.take(k + 1) =~= cs@.take(k as int) + seq![cs@[k as int]]);
            crate::text::lemma_encode_utf8_append(cs@.take(k as int), seq![cs@[k as int]]);
            crate::text::lemma_char_width(cs@[k as int]);
            lemma_byte_len_take_monotonic(cs@, k + 1, want);
        }
        assert(k < cs.len());
        used = used + width_of_char(cs[k]);
        k = k + 1;
    }
    proof {
        if k < want {
            lemma_byte_len_take_monotonic(cs@, k as int, want);
        }
        assert(cs@.take(k as int) =~= cs@.subrange(0, k as int));
    }
    string_of_range(&cs, 0, k)
}

fn width_of_char(c: char) -> (w: usize)
    ensures
        w == crate::text::char_width(c),
{
    let u = c as u32;
    if u <= 0x7f {
        1
    } else if u <= 0x7ff {
        2
    } else if u <= 0xffff {
        3
    } else {
        4
    }
}

/// The message that an OpenAI-compatible provider called `name` gives for
/// an HTTP error.
pub open spec fn openai_error_message(name: Seq<char>, status: u16, body: Seq<char>) -> Seq<char> {
    let detail = error_detail(body);
    if status == 401 {
        name + " API Key 无效，请在设置中重新配置。"@
    } else if status == 402 {
        name + " 账户余额不足，请充值后重试。"@
    } else if status == 403 {
        name + " 返回 403：访问被拒绝，请检查 API Key 权限。"@
    } else if status == 404 {
        name + " 返回 404：请求的资源不存在，请检查 API 地址配置。"@
    } else if status == 422 {
        name + " 返回 422：请求参数有误。"@ + detail
    } else if status == 429 {
        name + " 返回 429：请求过于频繁，请稍后重试。"@
    } else if 500 <= status <= 599 {
        name + " 服务器错误 (HTTP "@ + decimal(status as nat) + ")，请稍后重试。"@
    } else {
        name + " API 错误 (HTTP "@ + decimal(status as nat) + "): "@ + detail
    }
}

/// The `error.message` field of an error body that parses as JSON, as
/// `serde_json` reads it (a function of the body alone).
pub uninterp spec fn json_error_message(body: Seq<char>) -> Option<Seq<char>>;

/// Parses the body with `serde_json::from_str::<serde_json::Value>` and reads
/// its `error.message` string; the result is `json_error_message(body)`.
#[verifier::external_body]
fn parse_error_message(body: &str) -> (r: Option<String>)
    ensures
        match r {
            Some(m) => json_error_message(body@) == Some(m@),
            None => json_error_message(body@) is None,
        },
{
    serde_json::from_str::<serde_json::Value>(body).ok().and_then(
        |v| v["error"]["message"].as_str().map(|s| s.to_string()),
    )
}

/// The message that the Anthropic provider gives for an HTTP error: the
/// `error.message` of the JSON body when there is one, else the body's
/// first 300 bytes.
pub open spec fn anthropic_error_message(status: u16, body: Seq<char>) -> Seq<char> {
    let msg = match json_error_message(body) {
        Some(m) => m,
        None => error_detail(body),
    };
    if status == 401 {
        "Anthropic API Key 无效，请在设置中重新配置。"@
    } else if status == 403 {
        "Anthropic 返回 403：访问被拒绝，请检查 API Key 权限。"@
    } else if status == 429 {
        "Anthropic 返回 429：请求过于频繁，请稍后重试。"@
    } else if 500 <= status <= 599 {
        "Anthropic 服务器错误 (HTTP "@ + decimal(status as nat) + "): "@ + msg
    } else {
        "Anthropic API 错误 (HTTP "@ + decimal(status as nat) + "): "@ + msg
    }
}

// ---------------------------------------------------------------------------
// Reading replies
// ---------------------------------------------------------------------------

/// The first element of an array field.
pub open spec fn first_of(v: JsonValue, key: Seq<char>) -> Option<JsonValue> {
    match array_field(v, key) {
        Some(items) => if items.len() > 0 {
            Some(items[0])
        } else {
            None
        },
        None => None,
    }
}

/// The text of an OpenAI-style reply: `choices[0].message.content`.
pub open spec fn openai_content(v: JsonValue) -> Option<Seq<char>> {
    match first_of(v, "choices"@) {
        Some(c) => match get(c, "message"@) {
            Some(m) => str_field(m, "content"@),
            None => None,
        },
        None => None,
    }
}

/// Why an OpenAI-style reply ended: `choices[0].finish_reason`.
pub open spec fn openai_finish(v: JsonValue) -> Option<Seq<char>> {
    match first_of(v, "choices"@) {
        Some(c) => str_field(c, "finish_reason"@),
        None => None,
    }
}

/// The text of an Anthropic reply: `content[0].text`.
pub open spec fn anthropic_content(v: JsonValue) -> Option<Seq<char>> {
    match first_of(v, "content"@) {
        Some(b) => str_field(b, "text"@),
        None => None,
    }
}

/// The message of an Anthropic error reply: `error.message`.
pub open spec fn anthropic_error(v: JsonValue) -> Option<Seq<char>> {
    match get(v, "error"@) {
        Some(e) => str_field(e, "message"@),
        None => None,
    }
}

/// The first element of an array field.
fn first_field<'a>(v: &'a JsonValue, key: &str) -> (r: Option<&'a JsonValue>)
    ensures
        match (r, first_of(*v, key@)) {
            (Some(x), Some(y)) => *x == y,
            (None, None) => true,
            _ => false,
        },
{
    match get_field(v, key) {
        Some(JsonValue::Array(items)) => if items.len() > 0 {
            Some(&items[0])
        } else {
            None
        },
        _ => None,
    }
}

/// A string field, copied.
fn text_field(v: &JsonValue, key: &str) -> (r: Option<String>)
    ensures
        match (r, str_field(*v, key@)) {
            (Some(x), Some(y)) => x@ == y,
            (None, None) => true,
            _ => false,
        },
{
    match get_field(v, key) {
        Some(JsonValue::Str(s)) => Some(s.clone()),
        _ => None,
    }
}

impl OpenAiCompatibleProvider {
    /// The name under which the provider reports itself.
    pub closed spec fn spec_name(&self) -> Seq<char> {
        self.name@
    }

    pub fn new(name: &'static str) -> (p: Self)
        ensures
            p.spec_name() == name@,
    {
        Self { name }
    }

    pub fn provider_name(&self) -> (n: &'static str)
        ensures
            n@ == self.spec_name(),
    {
        self.name
    }

    /// `{base_url without trailing slashes}/v1/chat/completions`.
    pub fn build_chat_url(&self, base_url: &str) -> (url: String)
        ensures
            url@ == endpoint(base_url@, "/v1/chat/completions"@),
    {
        endpoint_exec(base_url, "/v1/chat/completions")
    }

    /// `Authorization: Bearer {key}` and `Content-Type: application/json`.
    pub fn build_headers(&self, api_key: &str) -> (h: Vec<(String, String)>)
        ensures
            h.len() == 2,
            h@[0].0@ == "Authorization"@,
            h@[0].1@ == "Bearer "@ + api_key@,
            h@[1].0@ == "Content-Type"@,
            h@[1].1@ == "application/json"@,
    {
        let mut bearer = String::from_str("Bearer ");
        push_str(&mut bearer, api_key);
        let mut h: Vec<(String, String)> = Vec::new();
        h.push((String::from_str("Authorization"), bearer));
        h.push((String::from_str("Content-Type"), String::from_str("application/json")));
        h
    }

    /// A user-facing message for an HTTP error status and body.
    pub fn normalize_error(&self, status_code: u16, error_body: &str) -> (m: String)
        requires
            error_body_ok(error_body@),
        ensures
            m@ == openai_error_message(self.spec_name(), status_code, error_body@),
    {
        let detail = error_detail_exec(error_body);
        let mut m = String::new();
        push_str(&mut m, self.name);
        if status_code == 401 {
            push_str(&mut m, " API Key 无效，请在设置中重新配置。");
        } else if status_code == 402 {
            push_str(&mut m, " 账户余额不足，请充值后重试。");
        } else if status_code == 403 {
            push_str(&mut m, " 返回 403：访问被拒绝，请检查 API Key 权限。");
        } else if status_code == 404 {
            push_str(&mut m, " 返回 404：请求的资源不存在，请检查 API 地址配置。");
        } else if status_code == 422 {
            push_str(&mut m, " 返回 422：请求参数有误。");
            push_str(&mut m, detail.as_str());
        } else if status_code == 429 {
            push_str(&mut m, " 返回 429：请求过于频繁，请稍后重试。");
        } else if 500 <= status_code && status_code <= 599 {
            push_str(&mut m, " 服务器错误 (HTTP ");
            push_decimal(&mut m, status_code as u64);
            push_str(&mut m, ")，请稍后重试。");
        } else {
            push_str(&mut m, " API 错误 (HTTP ");
            push_decimal(&mut m, status_code as u64);
            push_str(&mut m, "): ");
            push_str(&mut m, detail.as_str());
        }
        m
    }
    /// The text of a reply (see `openai_content`), or the error when it has
    /// none.
    pub fn extract_content(&self, response: &JsonValue) -> (r: Result<String, String>)
        ensures
            match (r, openai_content(*response)) {
                (Ok(t), Some(u)) => t@ == u,
                (Err(e), None) => e@ == "模型返回了空响应（choices 为空），可能是输入过长或模型异常"@,
                _ => false,
            },
    {
        let t = match first_field(response, "choices") {
            Some(c) => match get_field(c, "message") {
                Some(m) => text_field(m, "content"),
                None => None,
            },
            None => None,
        };
        match t {
            Some(t) => Ok(t),
            None => Err(String::from_str("模型返回了空响应（choices 为空），可能是输入过长或模型异常")),
        }
    }

    /// Why a reply ended (see `openai_finish`).
    pub fn extract_finish_reason(&self, response: &JsonValue) -> (r: Option<String>)
        ensures
            match (r, openai_finish(*response)) {
                (Some(t), Some(u)) => t@ == u,
                (None, None) => true,
                _ => false,
            },
    {
        match first_field(response, "choices") {
            Some(c) => text_field(c, "finish_reason"),
            None => None,
        }
    }
}

impl AnthropicProvider {
    pub fn new() -> (p: Self) {
        AnthropicProvider
    }

    pub fn provider_name(&self) -> (n: &'static str)
        ensures
            n@ == "Anthropic"@,
    {
        "Anthropic"
    }

    /// `{base_url without trailing slashes}/v1/messages`.
    pub fn build_chat_url(&self, base_url: &str) -> (url: String)
        ensures
            url@ == endpoint(base_url@, "/v1/messages"@),
    {
        endpoint_exec(base_url, "/v1/messages")
    }

    /// `x-api-key: {key}`, `anthropic-version: 2023-06-01` and
    /// `Content-Type: application/json`.
    pub fn build_headers(&self, api_key: &str) -> (h: Vec<(String, String)>)
        ensures
            h.len() == 3,
            h@[0].0@ == "x-api-key"@,
            h@[0].1@ == api_key@,
            h@[1].0@ == "anthropic-version"@,
            h@[1].1@ == "2023-06-01"@,
            h@[2].0@ == "Content-Type"@,
            h@[2].1@ == "application/json"@,
    {
        let mut h: Vec<(String, String)> = Vec::new();
        h.push((String::from_str("x-api-key"), String::from_str(api_key)));
        h.push((String::from_str("anthropic-version"), String::from_str("2023-06-01")));
        h.push((String::from_str("Content-Type"), String::from_str("application/json")));
        h
    }

    /// A user-facing message for an HTTP error status and body.
    pub fn normalize_error(&self, status_code: u16, error_body: &str) -> (m: String)
        requires
            error_body_ok(error_body@),
        ensures
            m@ == anthropic_error_message(status_code, error_body@),
    {
        let detail = error_detail_exec(error_body);
        let msg = match parse_error_message(error_body) {
            Some(x) => x,
            None => detail,
        };
        if status_code == 401 {
            String::from_str("Anthropic API Key 无效，请在设置中重新配置。")
        } else if status_code == 403 {
            String::from_str("Anthropic 返回 403：访问被拒绝，请检查 API Key 权限。")
        } else if status_code == 429 {
            String::from_str("Anthropic 返回 429：请求过于频繁，请稍后重试。")
        } else {
            let mut m = if 500 <= status_code && status_code <= 599 {
                String::from_str("Anthropic 服务器错误 (HTTP ")
            } else {
                String::from_str("Anthropic API 错误 (HTTP ")
            };
            push_decimal(&mut m, status_code as u64);
            push_str(&mut m, "): ");
            push_str(&mut m, msg.as_str());
            m
        }
    }
    /// The text of a reply (see `anthropic_content`), or an error naming the
    /// reply's error message when it has one.
    pub fn extract_content(&self, response: &JsonValue) -> (r: Result<String, String>)
        ensures
            match (r, anthropic_content(*response), anthropic_error(*response)) {
                (Ok(t), Some(u), _) => t@ == u,
                (Err(e), None, Some(m)) => e@ == "Anthropic API 错误: "@ + m,
                (Err(e), None, None) => e@ == "Anthropic 返回了空响应"@,
                _ => false,
            },
    {
        let t = match first_field(response, "content") {
            Some(b) => text_field(b, "text"),
            None => None,
        };
        match t {
            Some(t) => Ok(t),
            None => {
                let err = match get_field(response, "error") {
                    Some(e) => text_field(e, "message"),
                    None => None,
                };
                match err {
                    Some(m) => {
                        let mut e = String::from_str("Anthropic API 错误: ");
                        push_str(&mut e, m.as_str());
                        Err(e)
                    },
                    None => Err(String::from_str("Anthropic 返回了空响应")),
                }
            },
        }
    }

    /// Why a reply ended: its `stop_reason`.
    pub fn extract_finish_reason(&self, response: &JsonValue) -> (r: Option<String>)
        ensures
            match (r, str_field(*response, "stop_reason"@)) {
                (Some(t), Some(u)) => t@ == u,
                (None, None) => true,
                _ => false,
            },
    {
        text_field(response, "stop_reason")
    }
}

} // verus!
