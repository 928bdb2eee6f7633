//! Token accounting: the records of model calls and the daily quota that
//! stops calls once the day's tokens are used up.
use vstd::prelude::*;
use std::sync::Arc;
use crate::config::{ConfigService, DatabaseService};
use crate::text::{chars_of, decimal, push_decimal, push_str};

verus! {

/// Who spent the tokens of a model call.
#[derive(Debug, Clone)]
pub struct TokenContext {
    pub task_id: String,
    pub task_name: String,
    pub agent_name: String,
    pub model_name: String,
    pub provider: String,
}

/// Tokens spent on one day.
#[derive(Debug, Clone)]
pub struct DailyTokenUsage {
    pub date: String,
    pub input_tokens: u64,
    pub output_tokens: u64,
}

/// One recorded model call.
#[derive(Debug, Clone)]
pub struct TokenLogEntry {
    pub id: String,
    pub task_id: String,
    pub task_name: String,
    pub agent_name: String,
    pub input_tokens: u64,
    pub output_tokens: u64,
    pub model_name: String,
    pub provider: String,
    pub created_at: String,
}

/// One page of recorded model calls.
#[derive(Debug, Clone)]
pub struct PaginatedTokenLogs {
    pub entries: Vec<TokenLogEntry>,
    pub total: u64,
    pub page: u64,
    pub page_size: u64,
}

/// The daily token limit and whether it is enforced.
#[derive(Debug, Clone)]
pub struct DailyTokenLimit {
    pub enabled: bool,
    pub limit: u64,
}

impl Default for DailyTokenLimit {
    fn default() -> (l: Self)
        ensures
            !l.enabled,
            l.limit == 2_000_000,
    {
        DailyTokenLimit { enabled: false, limit: 2_000_000 }
    }
}

/// The answer of the quota check.
#[derive(Debug, Clone)]
pub struct TokenQuotaStatus {
    pub allowed: bool,
    pub today_used: u64,
    pub limit: u64,
    pub remaining: u64,
    pub message: String,
}

/// Records model calls in the database and enforces the daily quota.
pub struct TokenLogger {
    db: Arc<DatabaseService>,
    config: Arc<ConfigService>,
}

/// The quota status for a limit and the tokens used today.
pub open spec fn quota_holds(s: TokenQuotaStatus, limit: DailyTokenLimit, today_used: u64) -> bool {
    if !limit.enabled {
        &&& s.allowed
        &&& s.today_used == 0
        &&& s.limit == 0
        &&& s.remaining == 0
        &&& s.message@ == "每日限额未启用"@
    } else {
        let remaining: int = if today_used >= limit.limit {
            0
        } else {
            limit.limit - today_used
        };
        &&& s.allowed == (today_used < limit.limit)
        &&& s.today_used == today_used
        &&& s.limit == limit.limit
        &&& s.remaining == remaining
        &&& s.message@ == if today_used < limit.limit {
            "今日已消耗 "@ + decimal(today_used as nat) + " tokens，剩余 "@ + decimal(
                remaining as nat,
            ) + " tokens"@
        } else {
            "今日 Token 额度已耗尽！已消耗 "@ + decimal(today_used as nat) + " / "@ + decimal(
                limit.limit as nat,
            ) + " tokens"@
        }
    }
}

impl TokenLogger {
    pub closed spec fn spec_db(&self) -> Arc<DatabaseService> {
        self.db
    }

    pub closed spec fn spec_config(&self) -> Arc<ConfigService> {
        self.config
    }

    pub fn new(db: Arc<DatabaseService>, config: Arc<ConfigService>) -> (t: Self)
        ensures
            t.spec_db() == db,
            t.spec_config() == config,
    {
        TokenLogger { db, config }
    }

    /// The quota check: a call is allowed while the tokens used today stay
    /// below an enabled limit. `today_used` is not consulted when the limit
    /// is disabled.
    pub fn check_quota(limit: &DailyTokenLimit, today_used: u64) -> (s: TokenQuotaStatus)
        ensures
            quota_holds(s, *limit, today_used),
    {
        if !limit.enabled {
            return TokenQuotaStatus {
                allowed: true,
                today_used: 0,
                limit: 0,
                remaining: 0,
                message: String::from_str("每日限额未启用"),
            };
        }
        let remaining = if today_used >= limit.limit {
            0
        } else {
            limit.limit - today_used
        };
        let allowed = today_used < limit.limit;
        let mut message = String::new();
        if allowed {
            push_str(&mut message, "今日已消耗 ");
            push_decimal(&mut message, today_used);
            push_str(&mut message, " tokens，剩余 ");
            push_decimal(&mut message, remaining);
            push_str(&mut message, " tokens");
        } else {
            push_str(&mut message, "今日 Token 额度已耗尽！已消耗 ");
            push_decimal(&mut message, today_used);
            push_str(&mut message, " / ");
            push_decimal(&mut message, limit.limit);
            push_str(&mut message, " tokens");
        }
        proof {
            if allowed {
                assert(message@ =~= "今日已消耗 "@ + decimal(today_used as nat) + " tokens，剩余 "@
                    + decimal(remaining as nat) + " tokens"@);
            } else {
                assert(message@ =~= "今日 Token 额度已耗尽！已消耗 "@ + decimal(today_used as nat)
                    + " / "@ + decimal(limit.limit as nat) + " tokens"@);
            }
        }
        TokenQuotaStatus { allowed, today_used, limit: limit.limit, remaining, message }
    }
}

/// Law: with an enabled limit, a call is allowed exactly when tokens remain,
/// and the tokens used and the tokens remaining add up to the limit while
/// the quota lasts.
pub proof fn quota_allows_iff_tokens_remain(s: TokenQuotaStatus, limit: DailyTokenLimit, today_used: u64)
    requires
        limit.enabled,
        quota_holds(s, limit, today_used),
    ensures
        s.allowed <==> s.remaining > 0,
        s.allowed ==> s.today_used + s.remaining == s.limit,
{
}


/// Whether a character is a CJK unified ideograph (U+4E00 to U+9FFF).
pub open spec fn is_cjk(c: char) -> bool {
    0x4e00 <= (c as u32) <= 0x9fff
}

/// The number of CJK ideographs in a text.
pub open spec fn cjk_count(s: Seq<char>) -> nat
    decreases s.len(),
{
    if s.len() == 0 {
        0
    } else {
        cjk_count(s.drop_last()) + if is_cjk(s.last()) { 1nat } else { 0nat }
    }
}

/// The estimated number of tokens of a text: an ideograph counts for 2/3
/// of a token and any other character for 1/4, rounded up, and capped at
/// `u32::MAX`. (Computed with exact fractions: for any text that fits in
/// memory this is also what the floating-point sum `c / 1.5 + o / 4`
/// rounds up to, as a sum with a fractional part is at least 1/12 away
/// from the next integer.)
pub open spec fn estimated_tokens(s: Seq<char>) -> nat {
    let c = cjk_count(s);
    let o = s.len() - c;
    let t = (8 * c + 3 * o + 11) / 12;
    if t > u32::MAX { u32::MAX as nat } else { t as nat }
}

proof fn lemma_cjk_count_bound(s: Seq<char>)
    ensures
        cjk_count(s) <= s.len(),
    decreases s.len(),
{
    if s.len() > 0 {
        lemma_cjk_count_bound(s.drop_last());
    }
}

/// A rough count of the tokens of a text (see `estimated_tokens`), used
/// to size requests before they are sent.
pub fn estimate_tokens(text: &str) -> (n: u32)
    ensures
        n == estimated_tokens(text@),
{
    let cs = chars_of(text);
    let mut chinese: u64 = 0;
    let mut i: usize = 0;
    while i < cs.len()
        invariant
            i <= cs@.len(),
            cs@ == text@,
            chinese == cjk_count(cs@.take(i as int)),
            chinese <= i,
        decreases cs.len() - i,
    {
        proof {
            assert(cs@.take(i + 1).drop_last() =~= cs@.take(i as int));
        }
        let u = cs[i] as u32;
        if 0x4e00 <= u && u <= 0x9fff {
            chinese = chinese + 1;
        }
        i = i + 1;
    }
    proof {
        assert(cs@.take(cs@.len() as int) =~= cs@);
        lemma_cjk_count_bound(cs@);
    }
    let other: u64 = cs.len() as u64 - chinese;
    let t: u128 = (8 * (chinese as u128) + 3 * (other as u128) + 11) / 12;
    if t > 0xffff_ffffu128 {
        u32::MAX
    } else {
        t as u32
    }
}

} // verus!
