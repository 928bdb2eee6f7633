//! The prompts sent to the model: fixed system prompts for each pipeline
//! stage, and user messages built from the task's inputs.
use vstd::prelude::*;
use crate::text::{byte_len, chars_within, contains, decimal, floor_prefix, occurs_at, push_decimal, push_str, chars_of, string_of_range};
use vstd::string::StringSliceAdditionalSpecFns;

verus! {

/// System prompt: extraction of structured knowledge from a document.
pub const INGEST_SYSTEM_PROMPT: &'static str = r#"你是一位专业的知识抽取分析师，负责从用户提供的文档内容中提取结构化知识。

## 核心概念定义

1. **Source**：用户上传的原始文档，是事实来源，不允许修改。
2. **Entity**：具有明确指代对象的名词（人物、组织、论文、项目、产品、数据集、方法、软件库）。
3. **Concept**：抽象知识点、理论、机制、原则、术语、方法类别。
4. **Topic**：更高层级的主题集合。
5. **Claim**：可验证的事实性陈述，必须绑定来源。
6. **Citation**：引用位置标记，均标记为 model_reported。
7. **Relationship**：实体/概念之间的标准化关系，必须使用给定枚举值。

## 输出要求

你必须严格输出 JSON 格式，不要任何解释性文字。JSON 结构如下：

```json
{
  "source_summary": {
    "title": "文档标题",
    "type": "paper/article/book/manual/other",
    "language": "zh/en/mixed",
    "short_summary": "一句话摘要",
    "long_summary": "详细摘要",
    "key_points": ["要点1", "要点2"]
  },
  "coverage_report": {
    "document_sections_seen": ["第一章", "第二章"],
    "possibly_missing_sections": ["附录"],
    "confidence_in_coverage": "high|medium|low",
    "notes": "说明"
  },
  "entities": [
    {
      "name": "实体名",
      "type": "person/organization/paper/project/product/dataset/method/software/other",
      "description": "描述",
      "evidence": [{"source_id": "待填充", "location": "章节/段落", "quote": "原文引用"}]
    }
  ],
  "concepts": [
    {
      "name": "概念名",
      "definition": "定义",
      "related_entities": ["关联实体"],
      "evidence": [{"source_id": "待填充", "location": "章节/段落"}]
    }
  ],
  "topics": [
    {
      "name": "主题名",
      "description": "描述",
      "related_concepts": ["关联概念"]
    }
  ],
  "claims": [
    {
      "claim": "事实陈述",
      "confidence": "high|medium|low",
      "source_id": "",
      "location": "章节/段落",
      "citation_status": "model_reported"
    }
  ],
  "relationships": [
    {
      "source": "源实体/概念",
      "source_type": "entity|concept|topic",
      "target": "目标实体/概念",
      "target_type": "entity|concept|topic",
      "relation": "关系类型",
      "description": "关系描述",
      "evidence": {"source_id": "", "location": ""},
      "confidence": "high|medium|low"
    }
  ],
  "proposed_wiki_updates": [
    {
      "operation": "create|update|merge|skip",
      "page_type": "entity|concept|topic",
      "path": "建议路径",
      "title": "页面标题",
      "reason": "理由",
      "risk_level": "low|medium|high",
      "requires_review": true
    }
  ],
  "conflicts": [],
  "questions_for_user": []
}
```

## 关系类型枚举
is_a, part_of, uses, depends_on, improves, compares_with, contradicts, cites, mentions, related_to, has_alias, belongs_to_topic, evaluated_on, proposed_by, applies_to, derived_from

## 重要规则
1. 不要在未检查现有内容前新建页面。
2. 不要把相关概念当作 alias。
3. 不要把子概念当作 alias。
4. 没有 evidence 的关系不要输出。
5. 只输出 JSON，不要任何解释。
6. 不确定的内容标记 confidence 为 low。
7. claims 必须尽可能给出明确的 location 和 quote。
"#;

/// System prompt: deciding how new items relate to existing pages.
pub const RESOLUTION_SYSTEM_PROMPT: &'static str = r#"你是一位知识消歧专家。你的任务是根据候选页面判断新抽取的实体/概念/主题应该如何处理。

## 决策选项
- create_new：创建新页面
- update_existing：更新已有页面
- append_to_existing：追加到已有页面
- add_alias：添加为已有页面的别名
- merge_suggestion：建议合并
- skip：跳过
- needs_user_review：需要人工审阅

## Alias 规则（关键！）
- 完全同义：可添加为 alias
- 翻译同义：可添加为 alias  
- 缩写同义：建议确认后添加
- 相近概念：不能作为 alias，建立 related_to 关系
- 上下位概念：不能作为 alias，建立 is_a / part_of 关系
- 同主题不同概念：不能作为 alias

## 输出格式
```json
{
  "resolutions": [
    {
      "input_name": "新项目名",
      "input_type": "entity|concept|topic",
      "decision": "决策",
      "target_page": "目标页面路径",
      "new_page_path": "新页面路径（如果是create_new）",
      "alias_to_add": "要添加的别名",
      "reason": "决策理由",
      "confidence": "high|medium|low",
      "requires_review": true
    }
  ],
  "relationships": [],
  "review_items": []
}
```

只输出 JSON，不要解释。
"#;

/// System prompt: answering questions from the wiki.
pub const QUERY_SYSTEM_PROMPT: &'static str = r#"你是一个基于 Wiki 知识库的智能问答助手。你的回答应该：

1. 基于提供的 Wiki 页面内容和 Source Summary 进行回答
2. 每个回答应尽可能引用具体的 Wiki 页面或 Source
3. 如果知识库中没有相关信息，诚实地说明
4. 给出清晰、结构化的回答

## 输出格式
```json
{
  "answer": "你的回答（Markdown 格式）",
  "citations": [
    {
      "source_type": "wiki|source",
      "path": "来源路径",
      "location": "具体位置",
      "quote": "引用片段",
      "citation_status": "model_reported"
    }
  ],
  "related_pages": ["相关页面路径"],
  "suggested_follow_up_questions": ["建议后续问题"],
  "save_as_wiki_page": {
    "recommended": false,
    "suggested_title": "",
    "suggested_path": "",
    "reason": ""
  }
}
```

只输出 JSON，不要解释。
"#;

/// System prompt: normalising candidate relationships.
pub const RELATIONSHIP_SYSTEM_PROMPT: &'static str = r#"你是一位知识关系分析专家。将实体/概念间的候选关系标准化。

## 关系类型
is_a, part_of, uses, depends_on, improves, compares_with, contradicts, cites, mentions, related_to, has_alias, belongs_to_topic, evaluated_on, proposed_by, applies_to, derived_from

## 写入规则
1. source/target 必须映射到 canonical Wiki page
2. 没有 evidence 不写入
3. 低置信度标记为 needs_review
4. 高置信关系最多 20 条
5. related_to 最多 5 条

只输出 JSON。
"#;

/// System prompt: planning wiki updates.
pub const WIKI_UPDATE_SYSTEM_PROMPT: &'static str = r#"你是一位 Wiki 维护专家。根据消歧结果和关系，生成 Wiki 更新计划。

## JSON 输出格式（严格遵守）
```json
{
  "wiki_update_plan": [
    {
      "operation": "create | update | merge | delete | skip",
      "title": "页面标题",
      "path": "page_filename.md",
      "canonical_name": "规范化名称",
      "risk_level": "low | medium | high",
      "reason": "更新原因说明",
      "new_markdown": "完整的 Markdown 页面内容",
      "source_ids": ["source_id_1"]
    }
  ]
}
```

## 页面 Section 结构
- Summary <!-- section:summary -->
- Definition <!-- section:definition -->
- Key Points <!-- section:key_points -->
- Evidence <!-- section:evidence -->
- Related Pages <!-- section:related_pages -->
- Source Contributions <!-- section:source_contributions -->
- Open Questions <!-- section:open_questions -->

## 风险等级
- low: 新增摘要、添加 alias、related link、新建无冲突页面
- medium: 修改已有 section、添加上下位关系
- high: 合并/删除页面、覆盖核心定义、修改 canonical_name

只输出 JSON，不要任何解释文字。
"#;

/// The registry of standard system prompts.
pub struct PromptRegistry;

impl PromptRegistry {
    /// The system prompt of the source-ingest stage.
    pub fn get_ingest_system_prompt() -> (p: &'static str)
        ensures
            p@ == INGEST_SYSTEM_PROMPT@,
    {
        INGEST_SYSTEM_PROMPT
    }

    /// The system prompt of the entity-resolution stage.
    pub fn get_resolution_system_prompt() -> (p: &'static str)
        ensures
            p@ == RESOLUTION_SYSTEM_PROMPT@,
    {
        RESOLUTION_SYSTEM_PROMPT
    }

    /// The system prompt of question answering.
    pub fn get_query_system_prompt() -> (p: &'static str)
        ensures
            p@ == QUERY_SYSTEM_PROMPT@,
    {
        QUERY_SYSTEM_PROMPT
    }

    /// The system prompt of relationship normalisation.
    pub fn get_relationship_system_prompt() -> (p: &'static str)
        ensures
            p@ == RELATIONSHIP_SYSTEM_PROMPT@,
    {
        RELATIONSHIP_SYSTEM_PROMPT
    }

    /// The system prompt of the wiki-update planning stage.
    pub fn get_wiki_update_system_prompt() -> (p: &'static str)
        ensures
            p@ == WIKI_UPDATE_SYSTEM_PROMPT@,
    {
        WIKI_UPDATE_SYSTEM_PROMPT
    }
}


/// Appended to the query system prompt when answers must come from the wiki
/// alone.
pub const WIKI_ONLY_CONSTRAINT: &'static str = "\n\n## 严格约束：仅基于 Wiki 内容回答\n你被禁止使用训练数据或自有知识生成答案。所有回答必须严格基于下面提供的 Wiki 内容。如果 Wiki 内容不足以回答问题，你必须明确回复「知识库中暂无相关信息」，不得编造、推测或补充任何 Wiki 中不存在的内容。违反此规则将被视为严重错误。";

/// Documents longer than this many bytes are cut in the ingest prompt.
pub const MAX_DOCUMENT_BYTES: usize = 80000;

/// Builds the prompts of each pipeline stage.
pub struct PromptBuilder;

/// The document text as the ingest prompt shows it: whole, or cut at the
/// last character boundary within the byte limit and followed by a note
/// that gives the original length and the shown length in bytes.
pub open spec fn shown_document(t: Seq<char>) -> Seq<char> {
    if byte_len(t) > MAX_DOCUMENT_BYTES {
        let k = chars_within(t, MAX_DOCUMENT_BYTES as nat, 0, 0);
        t.take(k) + "...\n\n[文档内容已截断，原始长度 "@ + decimal(byte_len(t)) + " 字节，显示前 "@
            + decimal(byte_len(t.take(k))) + " 字节]"@
    } else {
        t
    }
}

/// The user message of the ingest stage.
pub open spec fn ingest_message(doc: Seq<char>, source_id: Seq<char>, pages: Seq<char>) -> Seq<
    char,
> {
    let info = if pages.len() == 0 {
        "暂无已有页面。"@
    } else {
        pages
    };
    "## 任务\n分析以下文档内容，提取结构化知识。\n\n## 文档信息\n- source_id: "@ + source_id
        + "\n- 文档长度: "@ + decimal(byte_len(doc)) + " 字符\n\n## 已有 Wiki 页面摘要\n"@ + info
        + "\n\n## 文档内容\n\n"@ + shown_document(doc) + "\n\n---\n\n请严格按照 JSON 格式输出分析结果。"@
}

/// The user message of the resolution stage.
pub open spec fn resolution_message(items: Seq<char>, candidates: Seq<char>) -> Seq<char> {
    "## 需要消歧的新项目\n\n"@ + items + "\n\n## 候选已有页面\n\n"@ + candidates
        + "\n\n---\n\n请判断每个新项目的处理决策。"@
}

/// The user message of question answering.
pub open spec fn query_message(question: Seq<char>, context: Seq<char>, scope: Seq<char>) -> Seq<
    char,
> {
    "## 问答范围\n"@ + scope + "\n\n## 相关 Wiki 内容\n\n"@ + context + "\n\n## 用户问题\n\n"@
        + question + "\n\n---\n\n请基于提供的 Wiki 内容回答问题。"@
}

/// The system prompt of question answering.
pub open spec fn query_system(allow_ai_generation: bool) -> Seq<char> {
    if allow_ai_generation {
        QUERY_SYSTEM_PROMPT@
    } else {
        QUERY_SYSTEM_PROMPT@ + WIKI_ONLY_CONSTRAINT@
    }
}

/// The user message of relationship normalisation.
pub open spec fn relationship_message(candidates: Seq<char>) -> Seq<char> {
    "## 候选关系\n\n"@ + candidates + "\n\n请标准化这些关系，确保映射到 canonical Wiki page。"@
}

/// The user message of wiki-update planning.
pub open spec fn wiki_update_message(
    resolutions: Seq<char>,
    relationships: Seq<char>,
    existing: Seq<char>,
) -> Seq<char> {
    "## 消歧结果\n\n"@ + resolutions + "\n\n## 标准化关系\n\n"@ + relationships
        + "\n\n## 已有页面内容（需要更新的页面）\n\n"@ + existing + "\n\n---\n\n请生成 Wiki 更新计划。"@
}


proof fn lemma_contains_at(s: Seq<char>, pat: Seq<char>, i: int)
    requires
        occurs_at(s, pat, i),
    ensures
        contains(s, pat),
{
    crate::text::lemma_contains_iff(s, pat);
}

/// Law: the ingest message shows the source id; a document within the
/// byte limit whole; a longer one cut at the last character boundary within
/// the limit and followed by the truncation note; and, without existing
/// pages, the note that there are none.
pub proof fn ingest_prompt_shows_its_parts(doc: Seq<char>, source_id: Seq<char>, pages: Seq<char>)
    ensures
        contains(ingest_message(doc, source_id, pages), "- source_id: "@ + source_id),
        byte_len(doc) <= MAX_DOCUMENT_BYTES ==> contains(ingest_message(doc, source_id, pages), doc),
        byte_len(doc) > MAX_DOCUMENT_BYTES ==> contains(
            ingest_message(doc, source_id, pages),
            doc.take(chars_within(doc, MAX_DOCUMENT_BYTES as nat, 0, 0)) + "...\n\n[文档内容已截断"@,
        ),
        pages.len() == 0 ==> contains(ingest_message(doc, source_id, pages), "暂无已有页面。"@),
{
    let head = "## 任务\n分析以下文档内容，提取结构化知识。\n\n## 文档信息\n- source_id: "@;
    let info = if pages.len() == 0 {
        "暂无已有页面。"@
    } else {
        pages
    };
    let a = head + source_id + "\n- 文档长度: "@ + decimal(byte_len(doc)) + " 字符\n\n## 已有 Wiki 页面摘要\n"@;
    let b = a + info + "\n\n## 文档内容\n\n"@;
    let shown = shown_document(doc);
    let m = ingest_message(doc, source_id, pages);
    assert(m =~= b + shown + "\n\n---\n\n请严格按照 JSON 格式输出分析结果。"@);
    reveal_strlit("## 任务\n分析以下文档内容，提取结构化知识。\n\n## 文档信息\n- source_id: ");
    reveal_strlit("- source_id: ");
    let piece = "- source_id: "@ + source_id;
    assert(m.subrange(head.len() - 13, (head.len() + source_id.len()) as int) =~= piece);
    lemma_contains_at(m, piece, head.len() - 13);
    if byte_len(doc) <= MAX_DOCUMENT_BYTES {
        assert(m.subrange(b.len() as int, (b.len() + doc.len()) as int) =~= doc);
        lemma_contains_at(m, doc, b.len() as int);
    } else {
        let k = chars_within(doc, MAX_DOCUMENT_BYTES as nat, 0, 0);
        reveal_strlit("...\n\n[文档内容已截断，原始长度 ");
        reveal_strlit("...\n\n[文档内容已截断");
        let cut = doc.take(k) + "...\n\n[文档内容已截断"@;
        assert(m.subrange(b.len() as int, (b.len() + cut.len()) as int) =~= cut);
        lemma_contains_at(m, cut, b.len() as int);
    }
    if pages.len() == 0 {
        assert(m.subrange(a.len() as int, (a.len() + info.len()) as int) =~= info);
        lemma_contains_at(m, info, a.len() as int);
    }
}

/// Law: with AI generation allowed the query system prompt is the plain
/// one; without, it begins with the plain one, is longer, and holds the
/// strict wiki-only constraint.
pub proof fn query_prompt_strictness(allow_ai_generation: bool)
    ensures
        allow_ai_generation ==> query_system(allow_ai_generation) == QUERY_SYSTEM_PROMPT@,
        !allow_ai_generation ==> {
            &&& query_system(allow_ai_generation).take(QUERY_SYSTEM_PROMPT@.len() as int) == QUERY_SYSTEM_PROMPT@
            &&& query_system(allow_ai_generation).len() > QUERY_SYSTEM_PROMPT@.len()
            &&& contains(query_system(allow_ai_generation), "## 严格约束：仅基于 Wiki 内容回答"@)
        },
{
    if !allow_ai_generation {
        let s = query_system(allow_ai_generation);
        let q = QUERY_SYSTEM_PROMPT@;
        reveal_strlit("\n\n## 严格约束：仅基于 Wiki 内容回答\n你被禁止使用训练数据或自有知识生成答案。所有回答必须严格基于下面提供的 Wiki 内容。如果 Wiki 内容不足以回答问题，你必须明确回复「知识库中暂无相关信息」，不得编造、推测或补充任何 Wiki 中不存在的内容。违反此规则将被视为严重错误。");
        reveal_strlit("## 严格约束：仅基于 Wiki 内容回答");
        let h = "## 严格约束：仅基于 Wiki 内容回答"@;
        assert(s.take(q.len() as int) =~= q);
        assert(s.subrange(q.len() + 2int, (q.len() + 2 + h.len()) as int) =~= h);
        lemma_contains_at(s, h, q.len() + 2int);
    }
}

impl PromptBuilder {
    /// System prompt and user message of the ingest stage.
    pub fn build_ingest_prompt(document_text: &str, source_id: &str, existing_pages_summary: &str) -> (r: (
        String,
        String,
    ))
        ensures
            r.0@ == INGEST_SYSTEM_PROMPT@,
            r.1@ == ingest_message(document_text@, source_id@, existing_pages_summary@),
    {
        let system_prompt = String::from_str(PromptRegistry::get_ingest_system_prompt());
        let doc_len = document_text.as_bytes().len();
        let cs = chars_of(document_text);
        let mut m = String::from_str("## 任务\n分析以下文档内容，提取结构化知识。\n\n## 文档信息\n- source_id: ");
        push_str(&mut m, source_id);
        push_str(&mut m, "\n- 文档长度: ");
        push_decimal(&mut m, doc_len as u64);
        push_str(&mut m, " 字符\n\n## 已有 Wiki 页面摘要\n");
        if existing_pages_summary.is_empty() {
            push_str(&mut m, "暂无已有页面。");
        } else {
            push_str(&mut m, existing_pages_summary);
        }
        push_str(&mut m, "\n\n## 文档内容\n\n");
        if doc_len > MAX_DOCUMENT_BYTES {
            let (k, shown) = floor_prefix(&cs, MAX_DOCUMENT_BYTES);
            let head = string_of_range(&cs, 0, k);
            assert(head@ =~= cs@.take(k as int));
            push_str(&mut m, head.as_str());
            push_str(&mut m, "...\n\n[文档内容已截断，原始长度 ");
            push_decimal(&mut m, doc_len as u64);
            push_str(&mut m, " 字节，显示前 ");
            push_decimal(&mut m, shown as u64);
            push_str(&mut m, " 字节]");
        } else {
            push_str(&mut m, document_text);
        }
        push_str(&mut m, "\n\n---\n\n请严格按照 JSON 格式输出分析结果。");
        proof {
            assert(m@ =~= ingest_message(document_text@, source_id@, existing_pages_summary@));
        }
        (system_prompt, m)
    }

    /// System prompt and user message of the resolution stage.
    pub fn build_resolution_prompt(items_to_resolve: &str, candidates: &str) -> (r: (String, String))
        ensures
            r.0@ == RESOLUTION_SYSTEM_PROMPT@,
            r.1@ == resolution_message(items_to_resolve@, candidates@),
    {
        let system_prompt = String::from_str(PromptRegistry::get_resolution_system_prompt());
        let mut m = String::from_str("## 需要消歧的新项目\n\n");
        push_str(&mut m, items_to_resolve);
        push_str(&mut m, "\n\n## 候选已有页面\n\n");
        push_str(&mut m, candidates);
        push_str(&mut m, "\n\n---\n\n请判断每个新项目的处理决策。");
        assert(m@ =~= resolution_message(items_to_resolve@, candidates@));
        (system_prompt, m)
    }

    /// System prompt and user message of question answering; without AI
    /// generation the system prompt forbids answers beyond the wiki.
    pub fn build_query_prompt(
        question: &str,
        context_content: &str,
        scope_description: &str,
        allow_ai_generation: bool,
    ) -> (r: (String, String))
        ensures
            r.0@ == query_system(allow_ai_generation),
            r.1@ == query_message(question@, context_content@, scope_description@),
    {
        let mut system_prompt = String::from_str(PromptRegistry::get_query_system_prompt());
        if !allow_ai_generation {
            push_str(&mut system_prompt, WIKI_ONLY_CONSTRAINT);
        }
        let mut m = String::from_str("## 问答范围\n");
        push_str(&mut m, scope_description);
        push_str(&mut m, "\n\n## 相关 Wiki 内容\n\n");
        push_str(&mut m, context_content);
        push_str(&mut m, "\n\n## 用户问题\n\n");
        push_str(&mut m, question);
        push_str(&mut m, "\n\n---\n\n请基于提供的 Wiki 内容回答问题。");
        assert(m@ =~= query_message(question@, context_content@, scope_description@));
        (system_prompt, m)
    }

    /// System prompt and user message of relationship normalisation.
    pub fn build_relationship_prompt(candidate_relationships: &str) -> (r: (String, String))
        ensures
            r.0@ == RELATIONSHIP_SYSTEM_PROMPT@,
            r.1@ == relationship_message(candidate_relationships@),
    {
        let system_prompt = String::from_str(PromptRegistry::get_relationship_system_prompt());
        let mut m = String::from_str("## 候选关系\n\n");
        push_str(&mut m, candidate_relationships);
        push_str(&mut m, "\n\n请标准化这些关系，确保映射到 canonical Wiki page。");
        assert(m@ =~= relationship_message(candidate_relationships@));
        (system_prompt, m)
    }

    /// System prompt and user message of wiki-update planning.
    pub fn build_wiki_update_prompt(resolutions: &str, relationships: &str, existing_page_content: &str) -> (r: (
        String,
        String,
    ))
        ensures
            r.0@ == WIKI_UPDATE_SYSTEM_PROMPT@,
            r.1@ == wiki_update_message(resolutions@, relationships@, existing_page_content@),
    {
        let system_prompt = String::from_str(PromptRegistry::get_wiki_update_system_prompt());
        let mut m = String::from_str("## 消歧结果\n\n");
        push_str(&mut m, resolutions);
        push_str(&mut m, "\n\n## 标准化关系\n\n");
        push_str(&mut m, relationships);
        push_str(&mut m, "\n\n## 已有页面内容（需要更新的页面）\n\n");
        push_str(&mut m, existing_page_content);
        push_str(&mut m, "\n\n---\n\n请生成 Wiki 更新计划。");
        assert(m@ =~= wiki_update_message(resolutions@, relationships@, existing_page_content@));
        (system_prompt, m)
    }
}
} // verus!
