//! State of the vector index of a knowledge base, as reported to the user.
use vstd::prelude::*;
use crate::text::{decimal, push_decimal, push_str};

verus! {

/// What the vector index is doing.
#[derive(Debug, Clone, Copy, PartialEq, Eq, Structural)]
pub enum VdbState {
    Idle,
    Indexing,
    Error,
}

/// Size and state of the vector index of one knowledge base.
#[derive(Debug, Clone)]
pub struct VdbStatus {
    pub kb_id: String,
    pub total_chunks: u64,
    pub disk_size_bytes: u64,
    pub vector_dimensions: u32,
    pub status: VdbState,
    pub error_message: Option<String>,
}

/// Progress of a reindexing run: `current` of `total` sources done.
#[derive(Debug, Clone)]
pub struct ReindexProgress {
    pub kb_id: String,
    pub current: u64,
    pub total: u64,
    pub message: String,
}

/// The chunk size, in characters, of the text of a source when it is indexed.
pub const CHUNK_CHARS: usize = 512;

/// Counts of a reindexing run: chunks stored and embeddings that failed.
#[derive(Debug, Clone, Copy, PartialEq, Eq, Structural)]
pub struct ReindexTally {
    pub chunks_stored: u64,
    pub embed_errors: u64,
}

/// How a reindexing run ended.
#[derive(Debug)]
pub enum ReindexEnd {
    /// All sources were processed: sources, chunks stored, embedding errors.
    Finished { sources: u64, chunks_stored: u64, embed_errors: u64 },
    /// The run stopped with this error.
    Failed(String),
    /// The background worker failed, with the reason.
    Crashed(String),
}

/// Whether a reindexing run can start: it needs sources with extracted
/// text.
pub open spec fn reindex_precheck(total_sources: u64, with_text: u64) -> Result<(), Seq<char>> {
    if with_text > 0 {
        Ok(())
    } else if total_sources == 0 {
        Err("该知识库尚无文档，请先上传并处理文档"@)
    } else {
        Err(decimal(total_sources as nat) + " 个文档中均无已提取的文本，请先运行文档处理任务"@)
    }
}

/// The state, error message and notification (level and message, under the
/// title `向量库`) after a reindexing run.
pub open spec fn reindex_report(end: ReindexEnd) -> (VdbState, Option<Seq<char>>, Seq<char>, Seq<char>) {
    match end {
        ReindexEnd::Finished { sources, chunks_stored, embed_errors } => (
            VdbState::Idle,
            None,
            "info"@,
            "索引构建完成: "@ + decimal(sources as nat) + " 个文档 → "@ + decimal(chunks_stored as nat)
                + " chunks"@ + (if embed_errors > 0 {
                ", "@ + decimal(embed_errors as nat) + " 次失败"@
            } else {
                Seq::empty()
            }),
        ),
        ReindexEnd::Failed(e) => (VdbState::Error, Some(e@), "error"@, "索引构建失败: "@ + e@),
        ReindexEnd::Crashed(e) => (
            VdbState::Error,
            Some("后台任务异常: "@ + e@),
            "error"@,
            "后台任务异常: "@ + e@,
        ),
    }
}

impl ReindexTally {
    /// Nothing counted yet.
    pub fn new() -> (t: Self)
        ensures
            t.chunks_stored == 0 && t.embed_errors == 0,
    {
        ReindexTally { chunks_stored: 0, embed_errors: 0 }
    }

    /// Counts one chunk: a failed embedding is an error; an embedding that
    /// was stored is a stored chunk; one whose storing failed counts as
    /// neither. The counts saturate at `u64::MAX`.
    pub fn record(&mut self, embedded: bool, stored: bool)
        ensures
            final(self).chunks_stored == if embedded && stored && old(self).chunks_stored < u64::MAX {
                old(self).chunks_stored + 1
            } else {
                old(self).chunks_stored as int
            },
            final(self).embed_errors == if !embedded && old(self).embed_errors < u64::MAX {
                old(self).embed_errors + 1
            } else {
                old(self).embed_errors as int
            },
    {
        if !embedded {
            if self.embed_errors < u64::MAX {
                self.embed_errors = self.embed_errors + 1;
            }
        } else if stored {
            if self.chunks_stored < u64::MAX {
                self.chunks_stored = self.chunks_stored + 1;
            }
        }
    }
}

/// The start of a reindex: refused until the embedding engine is loaded;
/// otherwise the state becomes `Indexing` and the last error is cleared.
pub fn start_reindex_state(engine_loaded: bool) -> (r: Result<(VdbState, Option<String>), String>)
    ensures
        match r {
            Ok((s, e)) => engine_loaded && s == VdbState::Indexing && e is None,
            Err(m) => !engine_loaded && m@ == "请先在推理引擎设置中保存配置以加载模型"@,
        },
{
    if !engine_loaded {
        return Err(String::from_str("请先在推理引擎设置中保存配置以加载模型"));
    }
    Ok((VdbState::Indexing, None))
}

/// Whether a reindexing run can start (see `reindex_precheck`).
pub fn check_reindex_sources(total_sources: u64, with_text: u64) -> (r: Result<(), String>)
    ensures
        match (r, reindex_precheck(total_sources, with_text)) {
            (Ok(()), Ok(())) => true,
            (Err(e), Err(m)) => e@ == m,
            _ => false,
        },
{
    if with_text > 0 {
        Ok(())
    } else if total_sources == 0 {
        Err(String::from_str("该知识库尚无文档，请先上传并处理文档"))
    } else {
        let mut m = String::new();
        push_decimal(&mut m, total_sources);
        push_str(&mut m, " 个文档中均无已提取的文本，请先运行文档处理任务");
        Err(m)
    }
}

/// The state, error message and notification after a run (see
/// `reindex_report`).
pub fn finish_reindex(end: ReindexEnd) -> (r: (VdbState, Option<String>, String, String))
    ensures
        (r.0, match r.1 {
            Some(e) => Some(e@),
            None => None,
        }, r.2@, r.3@) == reindex_report(end),
{
    match end {
        ReindexEnd::Finished { sources, chunks_stored, embed_errors } => {
            let mut m = String::from_str("索引构建完成: ");
            push_decimal(&mut m, sources);
            push_str(&mut m, " 个文档 → ");
            push_decimal(&mut m, chunks_stored);
            push_str(&mut m, " chunks");
            if embed_errors > 0 {
                push_str(&mut m, ", ");
                push_decimal(&mut m, embed_errors);
                push_str(&mut m, " 次失败");
            }
            (VdbState::Idle, None, String::from_str("info"), m)
        },
        ReindexEnd::Failed(e) => {
            let mut m = String::from_str("索引构建失败: ");
            push_str(&mut m, e.as_str());
            (VdbState::Error, Some(e), String::from_str("error"), m)
        },
        ReindexEnd::Crashed(e) => {
            let mut m = String::from_str("后台任务异常: ");
            push_str(&mut m, e.as_str());
            let em = m.clone();
            (VdbState::Error, Some(em), String::from_str("error"), m)
        },
    }
}

} // verus!
