use llmwiki::validator::JsonValue;
use llmwiki::web_search::{EngineConfig, SearchEngine, WebSearchSkill};

fn s(t: &str) -> JsonValue {
    JsonValue::Str(t.to_string())
}

fn obj(entries: Vec<(&str, JsonValue)>) -> JsonValue {
    JsonValue::Object(entries.into_iter().map(|(k, v)| (k.to_string(), v)).collect())
}

fn config(engine: &str) -> EngineConfig {
    EngineConfig {
        engine: engine.to_string(),
        max_results: 5,
        searxng_url: " http://localhost:8888/ ".to_string(),
        brave_api_key: "key".to_string(),
        bing_api_key: " ".to_string(),
        bing_endpoint: String::new(),
    }
}

#[test]
fn test_parse_ddg_api() {
    let json = obj(vec![
        ("Heading", s("Test")),
        ("AbstractURL", s("https://example.com")),
        ("AbstractText", s("A test result")),
        (
            "RelatedTopics",
            JsonValue::Array(vec![obj(vec![("FirstURL", s("https://example.com/1")), ("Text", s("Topic one"))])]),
        ),
    ]);
    let results = WebSearchSkill::ddg_api_results(&json, 10);
    assert_eq!(results.len(), 2);
    assert_eq!(results[0].title, "Test");
    assert_eq!(results[1].title, "Topic one");
}

#[test]
fn ddg_topics_stop_at_the_limit_and_cut_titles() {
    let long = "x".repeat(100);
    let topics = JsonValue::Array(vec![
        obj(vec![("Text", s(&long)), ("FirstURL", s("u1"))]),
        obj(vec![("Text", s("")), ("FirstURL", s("u2"))]),
        obj(vec![("Text", s("b")), ("FirstURL", s("u3"))]),
        obj(vec![("Text", s("c")), ("FirstURL", s("u4"))]),
    ]);
    let json = obj(vec![("RelatedTopics", topics)]);
    let r = WebSearchSkill::ddg_api_results(&json, 2);
    assert_eq!(r.len(), 2);
    assert_eq!(r[0].title.chars().count(), 80);
    assert_eq!(r[0].snippet, long);
    assert_eq!(r[1].url, "u3");
}

#[test]
fn engines_and_requests() {
    assert_eq!(WebSearchSkill::engine(&config("searxng")), SearchEngine::SearXng);
    assert_eq!(WebSearchSkill::engine(&config("other")), SearchEngine::DuckDuckGo);
    assert_eq!(
        WebSearchSkill::searxng_request(&config("searxng"), "a b"),
        Ok("http://localhost:8888/search?q=a+b&format=json&categories=general".to_string())
    );
    let mut c = config("searxng");
    c.searxng_url = " //".to_string();
    assert_eq!(
        WebSearchSkill::searxng_request(&c, "q"),
        Err("SearXNG 地址未配置，请在设置中填写 SearXNG 实例 URL".to_string())
    );
    assert_eq!(
        WebSearchSkill::brave_request(&config("brave"), "rust"),
        Ok("https://api.search.brave.com/res/v1/web/search?q=rust&count=5".to_string())
    );
    assert_eq!(
        WebSearchSkill::bing_request(&config("bing"), "rust"),
        Err("Bing Search API Key 未配置，请在设置中填写".to_string())
    );
    let mut b = config("bing");
    b.bing_api_key = "k".to_string();
    b.max_results = 80;
    assert_eq!(
        WebSearchSkill::bing_request(&b, "rust"),
        Ok("https://api.bing.microsoft.com/v7.0/search?q=rust&count=50&mkt=zh-CN".to_string())
    );
    b.bing_endpoint = "https://example.org/bing/".to_string();
    assert_eq!(
        WebSearchSkill::bing_request(&b, "x"),
        Ok("https://example.org/bingv7.0/search?q=x&count=50&mkt=zh-CN".to_string())
    );
    assert_eq!(
        WebSearchSkill::ddg_request(3, "知"),
        "https://api.duckduckgo.com/?q=%E7%9F%A5&format=json&no_html=1&skip_disambig=1"
    );
    assert_eq!(WebSearchSkill::ddg_request(0, "x"), "https://lite.duckduckgo.com/lite/?q=x");
}

#[test]
fn engine_replies() {
    let items = JsonValue::Array(vec![
        obj(vec![("title", s("T1")), ("url", s("U1")), ("content", s("C1"))]),
        obj(vec![("title", s("")), ("url", s("U2"))]),
        obj(vec![("title", s("T3"))]),
    ]);
    let reply = obj(vec![("results", items)]);
    let r = WebSearchSkill::searxng_results(&reply, 2).unwrap();
    assert_eq!(r.len(), 1);
    assert_eq!((r[0].title.as_str(), r[0].url.as_str(), r[0].snippet.as_str()), ("T1", "U1", "C1"));
    let r = WebSearchSkill::searxng_results(&reply, 10).unwrap();
    assert_eq!(r.len(), 2);
    assert_eq!(r[1].url, "");
    assert_eq!(WebSearchSkill::searxng_results(&obj(vec![]), 3).unwrap_err(), "SearXNG 返回结果格式异常");
    assert_eq!(
        WebSearchSkill::searxng_results(&obj(vec![("results", JsonValue::Array(vec![]))]), 3).unwrap_err(),
        "SearXNG 未返回任何结果"
    );
    let brave = obj(vec![(
        "web",
        obj(vec![("results", JsonValue::Array(vec![obj(vec![("title", s("B")), ("description", s("D"))])]))]),
    )]);
    let r = WebSearchSkill::brave_results(&brave).unwrap();
    assert_eq!(r[0].snippet, "D");
    assert_eq!(WebSearchSkill::brave_results(&obj(vec![("web", obj(vec![]))])).unwrap_err(), "Brave Search 返回结果格式异常");
    let bing = obj(vec![(
        "webPages",
        obj(vec![("value", JsonValue::Array(vec![obj(vec![("name", s("N")), ("snippet", s("S"))])]))]),
    )]);
    assert_eq!(WebSearchSkill::bing_results(&bing).unwrap()[0].title, "N");
    assert_eq!(WebSearchSkill::bing_results(&JsonValue::Null).unwrap_err(), "Bing Search 未返回网页结果");
}

#[test]
fn result_pages() {
    assert_eq!(WebSearchSkill::lite_result_url(" //example.com/a "), "https://example.com/a");
    assert_eq!(WebSearchSkill::lite_result_url("http://x"), "http://x");
    assert_eq!(WebSearchSkill::lite_result_url("  "), "");
    assert!(WebSearchSkill::generic_link_result("#top", "Title").is_none());
    assert!(WebSearchSkill::generic_link_result("/local", "Title").is_none());
    assert!(WebSearchSkill::generic_link_result("javascript:void(0)", "Title").is_none());
    assert!(WebSearchSkill::generic_link_result("https://a", " ab ").is_none());
    let r = WebSearchSkill::generic_link_result("//cdn.example/x", " Link ").unwrap();
    assert_eq!((r.title.as_str(), r.url.as_str()), ("Link", "https://cdn.example/x"));
    let rows = vec![
        (" T ".to_string(), " u ".to_string(), " s ".to_string()),
        ("".to_string(), "x".to_string(), "y".to_string()),
        ("T2".to_string(), "u2".to_string(), "".to_string()),
    ];
    let r = WebSearchSkill::html_results(&rows, 5);
    assert_eq!(r.len(), 2);
    assert_eq!((r[0].title.as_str(), r[0].url.as_str(), r[0].snippet.as_str()), ("T", "u", "s"));
    let links = vec![(" A ".to_string(), "//a.example".to_string()), ("B".to_string(), "http://b".to_string())];
    let snippets = vec!["sa".to_string()];
    let r = WebSearchSkill::lite_results(&links, &snippets, &vec![], 5);
    assert_eq!(r.len(), 2);
    assert_eq!((r[0].url.as_str(), r[0].snippet.as_str(), r[1].snippet.as_str()), ("https://a.example", "sa", ""));
    let generic = vec![("https://g.example".to_string(), "Generic".to_string())];
    let r = WebSearchSkill::lite_results(&vec![], &vec![], &generic, 5);
    assert_eq!(r[0].title, "Generic");
}

#[test]
fn fetched_page_text() {
    let p = WebSearchSkill::page_content("https://x", Some("  Title "), Some("H"), "  line one \n\n\t\n line two\r\n");
    assert_eq!(p.title, "Title");
    assert_eq!(p.content, "line one\nline two");
    assert_eq!(p.content_length, p.content.len());
    let p = WebSearchSkill::page_content("u", None, Some(" Head "), "");
    assert_eq!(p.title, "Head");
    assert_eq!(p.content, "");
    let p = WebSearchSkill::page_content("u", None, None, &"字".repeat(30001));
    assert_eq!(p.title, "无标题");
    assert_eq!(p.content, format!("{}...\n\n[内容已截断，原文共 30001 字符]", "字".repeat(30000)));
}

#[test]
fn html_page_results_are_read_from_result_blocks() {
    let html = "<html><body>\
        <div class=\"result\"><h2 class=\"result__title\"><a class=\"result__a\" href=\"x\">  Rust Lang </a></h2>\
        <a class=\"result__url\"> rust-lang.org </a><a class=\"result__snippet\">A language</a></div>\
        <div class=\"result\"><h2 class=\"result__title\"></h2></div>\
        <div class=\"result\"><h2 class=\"result__title\"><a class=\"result__a\">Second</a></h2></div>\
        </body></html>";
    let r = WebSearchSkill::parse_html_results(html, 10);
    assert_eq!(r.len(), 2);
    assert_eq!((r[0].title.as_str(), r[0].url.as_str(), r[0].snippet.as_str()), ("Rust Lang", "rust-lang.org", "A language"));
    assert_eq!((r[1].title.as_str(), r[1].url.as_str(), r[1].snippet.as_str()), ("Second", "", ""));
    assert_eq!(WebSearchSkill::parse_html_results(html, 1).len(), 1);
}

#[test]
fn lite_page_results_and_link_fallback() {
    let html = "<html><body><table>\
        <tr><td><a class=\"result-link\" href=\"//example.com/a\">Example</a></td></tr>\
        <tr><td class=\"result-snippet\"> snip </td></tr>\
        </table></body></html>";
    let r = WebSearchSkill::parse_lite_results(html, 10);
    assert_eq!(r.len(), 1);
    assert_eq!((r[0].title.as_str(), r[0].url.as_str(), r[0].snippet.as_str()), ("Example", "https://example.com/a", "snip"));
    let plain = "<html><body><a href=\"https://a.com/x\">Alpha</a><a href=\"#top\">Top</a></body></html>";
    let r = WebSearchSkill::parse_lite_results(plain, 10);
    assert_eq!(r.len(), 1);
    assert_eq!((r[0].title.as_str(), r[0].url.as_str(), r[0].snippet.as_str()), ("Alpha", "https://a.com/x", ""));
}

#[test]
fn page_content_is_read_from_html() {
    let html = "<html><head><title> T </title></head><body><h1>H</h1><main>line one\n\n  line two </main><p>side</p></body></html>";
    let p = WebSearchSkill::page_content_from_html("https://t.example", html);
    assert_eq!(p.title, "T");
    assert_eq!(p.url, "https://t.example");
    assert_eq!(p.content, "line one\nline two");
    assert_eq!(p.content_length, 17);
    let p = WebSearchSkill::page_content_from_html("u", "<html><body><h1> Head </h1>text</body></html>");
    assert_eq!(p.title, "Head");
    assert_eq!(p.content, "Head  text");
}
