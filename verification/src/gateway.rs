//! Records exchanged with the model gateway, the choice of protocol for a
//! configured provider, and the reading of the `HTTP {code}: {body}` error
//! strings that the HTTP client produces.
use vstd::prelude::*;
use crate::text::{chars_of, string_of_range, find_from, lemma_find_from, lemma_find_from_at,
    lemma_find_from_none, occurs_at, find_vec};
use crate::provider::{AnthropicProvider, OpenAiCompatibleProvider};

verus! {

/// One message of a chat conversation.
#[derive(Debug, Clone)]
pub struct ChatMessage {
    pub role: String,
    pub content: String,
}

/// The `response_format` of a chat request (`{"type": "json_object"}`).
#[derive(Debug, Clone)]
pub struct ResponseFormat {
    pub format_type: String,
}

/// The body of an OpenAI-style chat-completion response.
#[derive(Debug, Clone)]
pub struct ChatCompletionResponse {
    pub id: Option<String>,
    pub choices: Vec<Choice>,
    pub usage: Option<UsageInfo>,
    pub model: Option<String>,
}

/// One choice of a chat-completion response.
#[derive(Debug, Clone)]
pub struct Choice {
    pub index: u32,
    pub message: ChoiceMessage,
    pub finish_reason: Option<String>,
}

/// The message of one choice.
#[derive(Debug, Clone)]
pub struct ChoiceMessage {
    pub role: String,
    pub content: String,
}

/// Token counts reported by the model vendor.
#[derive(Debug, Clone)]
pub struct UsageInfo {
    pub prompt_tokens: Option<u32>,
    pub completion_tokens: Option<u32>,
    pub total_tokens: Option<u32>,
}

/// What a model call hands back to the agents.
#[derive(Debug, Clone)]
pub struct ModelResult {
    pub content: String,
    pub model: String,
    pub usage: Option<UsageInfo>,
    pub finish_reason: Option<String>,
}

/// The configuration a task was run with, as recorded with the task.
#[derive(Debug, Clone)]
pub struct ConfigSnapshot {
    pub provider: String,
    pub base_url: String,
    pub chat_model: String,
    pub reasoner_model: String,
    pub config_status: String,
    pub created_with_config_id: String,
}

/// The protocol adapter chosen for a configured provider.
pub enum ResolvedProvider {
    Anthropic(AnthropicProvider),
    OpenAiCompatible(OpenAiCompatibleProvider),
}

/// The display name of an OpenAI-compatible provider key.
pub open spec fn compatible_name(provider: Seq<char>) -> Seq<char> {
    if provider == "openai"@ {
        "OpenAI"@
    } else if provider == "ollama"@ {
        "Ollama"@
    } else if provider == "openwebui"@ {
        "OpenWebUI"@
    } else {
        "DeepSeek"@
    }
}

/// Whether `c` is an ASCII decimal digit.
pub open spec fn is_digit(c: char) -> bool {
    '0' <= c && c <= '9'
}

/// The value of an ASCII digit.
pub open spec fn digit_value(c: char) -> nat {
    (c as int - '0' as int) as nat
}

/// The value of a string of decimal digits.
pub open spec fn decimal_value(s: Seq<char>) -> nat
    decreases s.len(),
{
    if s.len() == 0 {
        0
    } else {
        decimal_value(s.drop_last()) * 10 + digit_value(s.last())
    }
}

/// The digits of an unsigned number: `s` without one leading `+`.
pub open spec fn unsigned_digits(s: Seq<char>) -> Seq<char> {
    if s.len() > 0 && s[0] == '+' {
        s.skip(1)
    } else {
        s
    }
}

/// Whether every character of `s` is a decimal digit.
pub open spec fn all_digits(s: Seq<char>) -> bool {
    forall|i: int| 0 <= i < s.len() ==> is_digit(#[trigger] s[i])
}

/// `str::parse::<u16>`: an optional `+` followed by at least one decimal
/// digit, with a value that fits in 16 bits.
pub open spec fn parse_u16(s: Seq<char>) -> Option<u16> {
    let digits = unsigned_digits(s);
    if digits.len() == 0 || !all_digits(digits) {
        None
    } else if decimal_value(digits) <= 65535 {
        Some(decimal_value(digits) as u16)
    } else {
        None
    }
}

/// The status code and body of an error string of the form
/// `HTTP {code}: {body}`; the body is what follows the first `": "` after
/// the code, or empty when there is none.
pub open spec fn http_error_parts(err: Seq<char>) -> Option<(u16, Seq<char>)> {
    if err.len() >= 5 && err.take(5) == "HTTP "@ {
        let rest = err.skip(5);
        let (code, body) = match find_from(rest, ": "@, 0) {
            Some(k) => (rest.take(k), rest.skip(k + 2)),
            None => (rest, Seq::<char>::empty()),
        };
        match parse_u16(code) {
            Some(c) => Some((c, body)),
            None => None,
        }
    } else {
        None
    }
}

proof fn lemma_decimal_cap(s: Seq<char>)
    requires
        s.len() > 0,
    ensures
        ({
            let a = decimal_value(s.drop_last());
            let capped = if a > 65536 { 65536 } else { a };
            let next = capped * 10 + digit_value(s.last());
            (if next > 65536 { 65536 } else { next }) == (if decimal_value(s) > 65536 {
                65536
            } else {
                decimal_value(s)
            })
        }),
{
}

/// `parse_u16` on the characters `cs[from..to]`.
fn parse_u16_range(cs: &Vec<char>, from: usize, to: usize) -> (r: Option<u16>)
    requires
        from <= to <= cs.len(),
    ensures
        r == parse_u16(cs@.subrange(from as int, to as int)),
{
    let ghost s = cs@.subrange(from as int, to as int);
    let mut start = from;
    if from < to && cs[from] == '+' {
        start = from + 1;
    }
    let ghost digits = cs@.subrange(start as int, to as int);
    assert(digits =~= unsigned_digits(s));
    if start == to {
        return None;
    }
    let mut v: u32 = 0;
    let mut i = start;
    while i < to
        invariant
            from <= start <= i <= to <= cs.len(),
            start < to,
            s == cs@.subrange(from as int, to as int),
            digits == cs@.subrange(start as int, to as int),
            digits == unsigned_digits(s),
            forall|k: int| start <= k < i ==> is_digit(#[trigger] cs@[k]),
            v == (if decimal_value(cs@.subrange(start as int, i as int)) > 65536 {
                65536
            } else {
                decimal_value(cs@.subrange(start as int, i as int))
            }),
        decreases to - i,
    {
        let c = cs[i];
        if !('0' <= c && c <= '9') {
            assert(parse_u16(s) is None) by {
                let j = i - start;
                assert(0 <= j < digits.len());
                assert(digits[j] == cs@[i as int]);
                assert(!is_digit(digits[j]));
            }
            return None;
        }
        let d = (c as u32) - ('0' as u32);
        proof {
            let p = cs@.subrange(start as int, i + 1);
            assert(p.drop_last() =~= cs@.subrange(start as int, i as int));
            lemma_decimal_cap(p);
        }
        let next = v * 10 + d;
        v = if next > 65536 {
            65536
        } else {
            next
        };
        i = i + 1;
    }
    assert(cs@.subrange(start as int, i as int) =~= digits);
    assert(all_digits(digits)) by {
        assert forall|k: int| 0 <= k < digits.len() implies is_digit(#[trigger] digits[k]) by {
            assert(digits[k] == cs@[start + k]);
        }
    }
    if v <= 65535 {
        Some(v as u16)
    } else {
        None
    }
}

/// Chooses the protocol adapter for a configured provider key:
/// `anthropic` speaks the Anthropic API, every other key an
/// OpenAI-compatible one under its display name.
pub fn resolve_provider(provider: &str) -> (r: ResolvedProvider)
    ensures
        provider@ == "anthropic"@ <==> r is Anthropic,
        r matches ResolvedProvider::OpenAiCompatible(p) ==> p.spec_name() == compatible_name(
            provider@,
        ),
{
    let cs = chars_of(provider);
    let anthropic = chars_of("anthropic");
    let openai = chars_of("openai");
    let ollama = chars_of("ollama");
    let openwebui = chars_of("openwebui");
    proof {
        reveal_strlit("anthropic");
        reveal_strlit("openai");
        reveal_strlit("ollama");
        reveal_strlit("openwebui");
    }
    if seq_eq(&cs, &anthropic) {
        ResolvedProvider::Anthropic(AnthropicProvider::new())
    } else {
        let name: &'static str = if seq_eq(&cs, &openai) {
            "OpenAI"
        } else if seq_eq(&cs, &ollama) {
            "Ollama"
        } else if seq_eq(&cs, &openwebui) {
            "OpenWebUI"
        } else {
            "DeepSeek"
        };
        ResolvedProvider::OpenAiCompatible(OpenAiCompatibleProvider::new(name))
    }
}

/// Whether two character vectors hold the same characters.
pub fn seq_eq(a: &Vec<char>, b: &Vec<char>) -> (r: bool)
    ensures
        r <==> a@ == b@,
{
    if a.len() != b.len() {
        return false;
    }
    let mut i: usize = 0;
    while i < a.len()
        invariant
            i <= a.len() == b.len(),
            forall|k: int| 0 <= k < i ==> a@[k] == b@[k],
        decreases a.len() - i,
    {
        if a[i] != b[i] {
            return false;
        }
        i = i + 1;
    }
    assert(a@ =~= b@);
    true
}

/// Reads the status code and response body out of an error string of the
/// form `HTTP {code}: {body}`; `None` when the string does not start with
/// `HTTP ` or the code is not a number that fits in 16 bits.
pub fn parse_http_error(err: &str) -> (r: Option<(u16, String)>)
    ensures
        match (r, http_error_parts(err@)) {
            (None, None) => true,
            (Some((c, b)), Some((c2, b2))) => c == c2 && b@ == b2,
            _ => false,
        },
{
    let cs = chars_of(err);
    let prefix = chars_of("HTTP ");
    proof {
        reveal_strlit("HTTP ");
    }
    if cs.len() < 5 {
        return None;
    }
    let head = crate::text::slice_vec(&cs, 0, 5);
    if !seq_eq(&head, &prefix) {
        assert(cs@.take(5) =~= head@);
        return None;
    }
    assert(cs@.take(5) =~= head@);
    let ghost rest = cs@.skip(5);
    let sep = chars_of(": ");
    proof {
        reveal_strlit(": ");
    }
    let found = find_vec(&cs, &sep, 5);
    proof {
        lemma_find_from(cs@, sep@, 5);
    }
    match found {
        Some(k) => {
            proof {
                assert forall|m: int| 0 <= m < k - 5 implies !occurs_at(rest, sep@, m) by {
                    assert(occurs_at(rest, sep@, m) == occurs_at(cs@, sep@, m + 5)) by {
                        assert(rest.subrange(m, m + sep@.len()) =~= cs@.subrange(
                            m + 5,
                            m + 5 + sep@.len(),
                        ));
                    }
                }
                assert(rest.subrange(k - 5, k - 5 + sep@.len()) =~= cs@.subrange(
                    k as int,
                    k + sep@.len(),
                ));
                lemma_find_from_at(rest, sep@, 0, k - 5);
            }
            let code = parse_u16_range(&cs, 5, k);
            assert(cs@.subrange(5, k as int) =~= rest.take(k - 5));
            match code {
                Some(c) => {
                    let body = string_of_range(&cs, k + 2, cs.len());
                    assert(body@ =~= rest.skip(k - 5 + 2));
                    Some((c, body))
                },
                None => None,
            }
        },
        None => {
            proof {
                assert forall|m: int| 0 <= m implies !occurs_at(rest, sep@, m) by {
                    if m + sep@.len() <= rest.len() {
                        assert(rest.subrange(m, m + sep@.len()) =~= cs@.subrange(
                            m + 5,
                            m + 5 + sep@.len(),
                        ));
                        assert(!occurs_at(cs@, sep@, m + 5));
                    }
                }
                lemma_find_from_none(rest, sep@, 0);
            }
            let code = parse_u16_range(&cs, 5, cs.len());
            assert(cs@.subrange(5, cs@.len() as int) =~= rest);
            match code {
                Some(c) => Some((c, String::new())),
                None => None,
            }
        },
    }
}

proof fn lemma_digit_char(d: nat)
    requires
        d < 10,
    ensures
        is_digit(crate::text::digit_char(d)),
        digit_value(crate::text::digit_char(d)) == d,
{
}

proof fn lemma_decimal(n: nat)
    ensures
        crate::text::decimal(n).len() > 0,
        all_digits(crate::text::decimal(n)),
        decimal_value(crate::text::decimal(n)) == n,
    decreases n,
{
    let s = crate::text::decimal(n);
    if n < 10 {
        lemma_digit_char(n);
        assert(s.drop_last() =~= Seq::<char>::empty());
        assert(decimal_value(s.drop_last()) == 0);
        assert(s.last() == crate::text::digit_char(n));
    } else {
        lemma_decimal(n / 10);
        lemma_digit_char(n % 10);
        assert(s.drop_last() =~= crate::text::decimal(n / 10));
        assert(s.last() == crate::text::digit_char(n % 10));
        assert(decimal_value(s) == decimal_value(crate::text::decimal(n / 10)) * 10 + (n % 10));
        assert((n / 10) * 10 + n % 10 == n) by (nonlinear_arith);
        assert forall|i: int| 0 <= i < s.len() implies is_digit(#[trigger] s[i]) by {
            if i < s.len() - 1 {
                assert(s[i] == crate::text::decimal(n / 10)[i]);
            }
        }
    }
}

/// An error written as `HTTP {code}: {body}` is read back as its code and
/// body, whatever the body holds.
pub proof fn http_error_round_trip(code: u16, body: Seq<char>)
    ensures
        http_error_parts("HTTP "@ + crate::text::decimal(code as nat) + ": "@ + body) == Some(
            (code, body),
        ),
{
    reveal_strlit("HTTP ");
    reveal_strlit(": ");
    let d = crate::text::decimal(code as nat);
    lemma_decimal(code as nat);
    let err = "HTTP "@ + d + ": "@ + body;
    assert(err.take(5) =~= "HTTP "@);
    let rest = err.skip(5);
    assert(rest =~= d + ": "@ + body);
    let k = d.len() as int;
    assert forall|m: int| 0 <= m < k implies !occurs_at(rest, ": "@, m) by {
        assert(is_digit(d[m]));
        assert(rest[m] == d[m]);
        if occurs_at(rest, ": "@, m) {
            assert(rest.subrange(m, m + 2)[0] == rest[m]);
        }
    }
    assert(rest.subrange(k, k + 2) =~= ": "@);
    lemma_find_from_at(rest, ": "@, 0, k);
    assert(rest.take(k) =~= d);
    assert(rest.skip(k + 2) =~= body);
    assert(unsigned_digits(d) == d) by {
        assert(is_digit(d[0]));
    }
}

} // verus!
