//! Test runs of user skills: rendering a prompt template, the registered
//! transform functions, and the result reported for a run that finished,
//! crashed or timed out. The run itself, with its time limit, is driven by
//! the caller.
use vstd::prelude::*;
use sha2::Digest;
use crate::text::{chars_of, string_of, push_str, push_decimal, decimal, replace_all, replace_vec};
use crate::dedup::{words, split_whitespace};
use crate::gateway::seq_eq;
use crate::json_repair::{json_accepts, json_error_of, parse_json_value};

verus! {

/// The outcome of a skill run.
#[derive(Debug, Clone)]
pub struct SandboxResult {
    pub success: bool,
    pub output: String,
    pub error: Option<String>,
    pub duration_ms: u64,
}

/// Seconds a skill may run before it is stopped.
pub const SANDBOX_TIMEOUT_SECS: u64 = 5;

/// How a run ended.
#[derive(Debug)]
pub enum RunEnd {
    /// The run finished with this output or error.
    Finished(Result<String, String>),
    /// The worker running it failed, with the reason.
    Crashed(String),
    /// The time limit was reached.
    TimedOut,
}

/// `{{key}}`.
pub open spec fn placeholder(key: Seq<char>) -> Seq<char> {
    seq!['{', '{'] + key + seq!['}', '}']
}

/// The template with the placeholder of each parameter replaced by its
/// value, parameter by parameter in the given order.
pub open spec fn rendered(template: Seq<char>, params: Seq<(Seq<char>, Seq<char>)>) -> Seq<char>
    decreases params.len(),
{
    if params.len() == 0 {
        template
    } else {
        replace_all(
            rendered(template, params.drop_last()),
            placeholder(params.last().0),
            params.last().1,
        )
    }
}

/// What SHA-256 yields for a byte string.
pub uninterp spec fn sha256(bytes: Seq<u8>) -> Seq<u8>;

/// Calls `sha2::Sha256::digest`; a SHA-256 digest has 32 bytes.
#[verifier::external_body]
fn sha256_digest(bytes: &[u8]) -> (d: Vec<u8>)
    ensures
        d@ == sha256(bytes@),
        d@.len() == 32,
{
    sha2::Sha256::digest(bytes).to_vec()
}

/// The lower-case hexadecimal digit for `d < 16`.
pub open spec fn lower_hex_digit(d: u8) -> char {
    if d < 10 {
        (('0' as u8) + d) as char
    } else {
        (('a' as u8) + (d - 10)) as char
    }
}

/// Each byte as two lower-case hexadecimal digits (`{:x}` of a digest).
pub open spec fn lower_hex(bytes: Seq<u8>) -> Seq<char>
    decreases bytes.len(),
{
    if bytes.len() == 0 {
        Seq::empty()
    } else {
        lower_hex(bytes.drop_last()) + seq![
            lower_hex_digit(bytes.last() / 16),
            lower_hex_digit(bytes.last() % 16),
        ]
    }
}

fn hex_digit_lower(d: u8) -> (c: char)
    requires
        d < 16,
    ensures
        c == lower_hex_digit(d),
{
    if d < 10 {
        ((48u8) + d) as char
    } else {
        ((97u8) + (d - 10)) as char
    }
}

/// The SHA-256 of a byte string in lower-case hexadecimal (what
/// `hex::encode` writes for the digest).
pub(crate) fn sha256_hex(bytes: &[u8]) -> (out: String)
    ensures
        out@ == lower_hex(sha256(bytes@)),
{
    let d = sha256_digest(bytes);
    let mut out = String::new();
    let mut i: usize = 0;
    while i < d.len()
        invariant
            i <= d@.len(),
            out@ == lower_hex(d@.take(i as int)),
        decreases d.len() - i,
    {
        out.push(hex_digit_lower(d[i] / 16));
        out.push(hex_digit_lower(d[i] % 16));
        proof {
            assert(d@.take(i + 1).drop_last() =~= d@.take(i as int));
        }
        i = i + 1;
    }
    assert(d@.take(d@.len() as int) =~= d@);
    out
}

/// The output of a registered transform function, or why there is none.
pub open spec fn transform_output(function: Seq<char>, text: Seq<char>) -> Result<Seq<char>, Seq<char>> {
    if function == "sha256_hash"@ {
        Ok(lower_hex(sha256(crate::text::utf8_of(text))))
    } else if function == "count_words"@ {
        Ok(decimal(words(text).len()))
    } else {
        Err("未注册的系统函数 '"@ + function + "'，仅支持白名单内的 transform 操作"@)
    }
}

/// The view of a run result: success, output, error, duration.
pub open spec fn result_view(r: SandboxResult) -> (bool, Seq<char>, Option<Seq<char>>, u64) {
    (
        r.success,
        r.output@,
        match r.error {
            Some(e) => Some(e@),
            None => None,
        },
        r.duration_ms,
    )
}

/// The result of a prompt-template run.
pub open spec fn template_result(end: RunEnd, duration_ms: u64) -> (bool, Seq<char>, Option<Seq<char>>, u64) {
    match end {
        RunEnd::Finished(Ok(out)) => (true, out@, None, duration_ms),
        RunEnd::Finished(Err(e)) => (false, Seq::empty(), Some("模板执行异常: "@ + e@), duration_ms),
        RunEnd::Crashed(e) => (false, Seq::empty(), Some("模板执行异常: "@ + e@), duration_ms),
        RunEnd::TimedOut => (
            false,
            Seq::empty(),
            Some("Skill 执行超时 (5s)，沙箱已自动熔断保护"@),
            duration_ms,
        ),
    }
}

/// The result of a transform run.
pub open spec fn transform_result(end: RunEnd, duration_ms: u64) -> (bool, Seq<char>, Option<Seq<char>>, u64) {
    match end {
        RunEnd::Finished(Ok(out)) => (true, out@, None, duration_ms),
        RunEnd::Finished(Err(e)) => (false, Seq::empty(), Some(e@), duration_ms),
        RunEnd::Crashed(e) => (false, Seq::empty(), Some("Transform Skill 执行异常: "@ + e@), duration_ms),
        RunEnd::TimedOut => (
            false,
            Seq::empty(),
            Some("Transform Skill 执行超时 (5s)，沙箱已自动熔断保护"@),
            duration_ms,
        ),
    }
}

fn failure(e: String, duration_ms: u64) -> (r: SandboxResult)
    ensures
        result_view(r) == (false, Seq::<char>::empty(), Some(e@), duration_ms),
{
    SandboxResult { success: false, output: String::new(), error: Some(e), duration_ms }
}

fn prefixed(head: &str, s: &str) -> (out: String)
    ensures
        out@ == head@ + s@,
{
    let mut out = String::from_str(head);
    push_str(&mut out, s);
    out
}

/// Runs the steps of skills in the sandbox.
pub struct SkillSandbox;

impl SkillSandbox {
    /// Replaces `{{key}}` by the value of each parameter, parameter by
    /// parameter; the values are the texts of the JSON parameters (strings
    /// as they are, other values serialised).
    pub fn render_template(template: &str, params: &Vec<(String, String)>) -> (out: String)
        ensures
            out@ == rendered(template@, params@.map_values(|p: (String, String)| (p.0@, p.1@))),
    {
        let ghost ps = params@.map_values(|p: (String, String)| (p.0@, p.1@));
        let mut cur = chars_of(template);
        let mut i: usize = 0;
        assert(ps.take(0) =~= Seq::<(Seq<char>, Seq<char>)>::empty());
        while i < params.len()
            invariant
                i <= params@.len(),
                ps == params@.map_values(|p: (String, String)| (p.0@, p.1@)),
                cur@ == rendered(template@, ps.take(i as int)),
            decreases params.len() - i,
        {
            let mut pat: Vec<char> = Vec::new();
            pat.push('{');
            pat.push('{');
            let key = chars_of(params[i].0.as_str());
            let mut k: usize = 0;
            while k < key.len()
                invariant
                    k <= key.len(),
                    pat@ == seq!['{', '{'] + key@.take(k as int),
                decreases key.len() - k,
            {
                pat.push(key[k]);
                k = k + 1;
                assert(key@.take(k as int) =~= key@.take(k - 1).push(key@[k - 1]));
            }
            pat.push('}');
            pat.push('}');
            assert(key@.take(key@.len() as int) =~= key@);
            assert(pat@ =~= placeholder(ps[i as int].0));
            let rep = chars_of(params[i].1.as_str());
            cur = replace_vec(&cur, &pat, &rep);
            assert(ps.take(i + 1).drop_last() =~= ps.take(i as int));
            i = i + 1;
        }
        assert(ps.take(params@.len() as int) =~= ps);
        string_of(&cur)
    }

    /// Runs a registered transform function on a text: `sha256_hash` gives
    /// the lower-case hexadecimal SHA-256 digest of its UTF-8 bytes,
    /// `count_words` the number of whitespace-separated words.
    pub fn run_transform(function_name: &str, text: &str) -> (r: Result<String, String>)
        ensures
            match (r, transform_output(function_name@, text@)) {
                (Ok(o), Ok(u)) => o@ == u,
                (Err(e), Err(u)) => e@ == u,
                _ => false,
            },
    {
        let f = chars_of(function_name);
        let sha = chars_of("sha256_hash");
        let count = chars_of("count_words");
        if seq_eq(&f, &sha) {
            let out = sha256_hex(text.as_bytes());
            Ok(out)
        } else if seq_eq(&f, &count) {
            let ws = split_whitespace(text);
            assert(ws@.len() == words(text@).len()) by {
                assert(ws@.map_values(|w: String| w@).len() == ws@.len());
            }
            let mut out = String::new();
            push_decimal(&mut out, ws.len() as u64);
            Ok(out)
        } else {
            let mut m = String::from_str("未注册的系统函数 '");
            push_str(&mut m, function_name);
            push_str(&mut m, "'，仅支持白名单内的 transform 操作");
            Err(m)
        }
    }

    /// The result of a prompt-template run that took `duration_ms`.
    pub fn template_result(end: RunEnd, duration_ms: u64) -> (r: SandboxResult)
        ensures
            result_view(r) == template_result(end, duration_ms),
    {
        match end {
            RunEnd::Finished(Ok(out)) => SandboxResult { success: true, output: out, error: None, duration_ms },
            RunEnd::Finished(Err(e)) => failure(prefixed("模板执行异常: ", e.as_str()), duration_ms),
            RunEnd::Crashed(e) => failure(prefixed("模板执行异常: ", e.as_str()), duration_ms),
            RunEnd::TimedOut => failure(String::from_str("Skill 执行超时 (5s)，沙箱已自动熔断保护"), duration_ms),
        }
    }

    /// The result of a transform run that took `duration_ms`.
    pub fn transform_result(end: RunEnd, duration_ms: u64) -> (r: SandboxResult)
        ensures
            result_view(r) == transform_result(end, duration_ms),
    {
        match end {
            RunEnd::Finished(Ok(out)) => SandboxResult { success: true, output: out, error: None, duration_ms },
            RunEnd::Finished(Err(e)) => failure(e, duration_ms),
            RunEnd::Crashed(e) => failure(prefixed("Transform Skill 执行异常: ", e.as_str()), duration_ms),
            RunEnd::TimedOut => failure(String::from_str("Transform Skill 执行超时 (5s)，沙箱已自动熔断保护"), duration_ms),
        }
    }
}

/// The string field `key` of the JSON object that `text` holds, as
/// `serde_json` reads it (a function of the text and the key alone).
pub uninterp spec fn json_str_field(text: Seq<char>, key: Seq<char>) -> Option<Seq<char>>;

/// Parses `text` with `serde_json::from_str::<serde_json::Value>` and reads
/// its string field `key`; the result is `json_str_field(text, key)`.
#[verifier::external_body]
fn json_string_field(text: &str, key: &str) -> (r: Option<String>)
    ensures
        match r {
            Some(s) => json_str_field(text@, key@) == Some(s@),
            None => json_str_field(text@, key@) is None,
        },
{
    serde_json::from_str::<serde_json::Value>(text).ok().and_then(
        |v| v.get(key).and_then(|x| x.as_str()).map(|x| x.to_string()),
    )
}

/// What a test run of a skill does first.
#[derive(Debug)]
pub enum SkillRun {
    /// Render this prompt template.
    Template(String),
    /// Run this registered transform function.
    Transform(String),
    /// Nothing to run: this is the result.
    Done(SandboxResult),
}

/// The first step of a test run of a skill of `skill_type` whose code is
/// `code_body`: a prompt skill renders its `user_prompt_template` (or the
/// body itself), a transform skill runs its `function` (or `unknown`);
/// composite and unknown skills are refused.
pub open spec fn mock_plan(skill_type: Seq<char>, code_body: Seq<char>) -> (u8, Seq<char>) {
    if skill_type == "prompt"@ {
        (0, match json_str_field(code_body, "user_prompt_template"@) {
            Some(t) => t,
            None => code_body,
        })
    } else if skill_type == "transform"@ {
        (1, match json_str_field(code_body, "function"@) {
            Some(f) => f,
            None => "unknown"@,
        })
    } else if skill_type == "composite"@ {
        (2, "Composite Skill 的 Mock 测试暂不支持，请单独测试各子 Skill"@)
    } else {
        (2, "未知的 skill_type: "@ + skill_type)
    }
}

/// The view of a first step: 0 render, 1 transform, 2 refused; with the
/// template, the function name or the error.
pub open spec fn run_view(r: SkillRun) -> (u8, Seq<char>) {
    match r {
        SkillRun::Template(t) => (0, t@),
        SkillRun::Transform(f) => (1, f@),
        SkillRun::Done(res) => (2, match res.error {
            Some(e) => e@,
            None => Seq::empty(),
        }),
    }
}

impl SkillSandbox {
    /// The first step of a test run of a skill (see `mock_plan`); a refused
    /// run fails at once, after no time.
    pub fn mock_execute_skill(skill_type: &str, code_body: &str) -> (r: SkillRun)
        ensures
            run_view(r) == mock_plan(skill_type@, code_body@),
            r matches SkillRun::Done(res) ==> !res.success && res.output@.len() == 0
                && res.duration_ms == 0 && res.error is Some,
    {
        let t = chars_of(skill_type);
        let prompt = chars_of("prompt");
        let transform = chars_of("transform");
        let composite = chars_of("composite");
        if seq_eq(&t, &prompt) {
            match json_string_field(code_body, "user_prompt_template") {
                Some(x) => SkillRun::Template(x),
                None => SkillRun::Template(String::from_str(code_body)),
            }
        } else if seq_eq(&t, &transform) {
            match json_string_field(code_body, "function") {
                Some(x) => SkillRun::Transform(x),
                None => SkillRun::Transform(String::from_str("unknown")),
            }
        } else if seq_eq(&t, &composite) {
            SkillRun::Done(failure(String::from_str("Composite Skill 的 Mock 测试暂不支持，请单独测试各子 Skill"), 0))
        } else {
            SkillRun::Done(failure(prefixed("未知的 skill_type: ", skill_type), 0))
        }
    }
}

/// Checks that a skill's parameter schema is JSON: fails exactly when
/// `serde_json` rejects the text, naming the parse error.
pub fn validate_parameter_schema(schema_json: &str) -> (r: Result<(), String>)
    ensures
        r is Ok == json_accepts(schema_json@),
        r matches Err(e) ==> e@ == "parameter_schema 不是合法 JSON: "@ + json_error_of(schema_json@),
{
    match parse_json_value(schema_json) {
        Ok(_) => Ok(()),
        Err(e) => {
            let mut m = String::from_str("parameter_schema 不是合法 JSON: ");
            push_str(&mut m, e.as_str());
            proof {
                reveal_strlit("parameter_schema 不是合法 JSON: ");
            }
            Err(m)
        },
    }
}

} // verus!
