//! The file tree of a workspace and the classification of each file by the
//! area of the workspace it lies in and the database record it belongs to.
use vstd::prelude::*;
use vstd::pervasive::VecAdditionalExecFns;
use crate::text::{chars_of, has_prefix, starts_with};
use crate::topology::{chars_lt, chars_less};

verus! {

/// One file or directory of the workspace tree.
#[derive(Debug)]
pub struct FileTreeNode {
    pub name: String,
    pub relative_path: String,
    pub file_type: String,
    pub file_size: u64,
    pub modified_at: String,
    pub is_directory: bool,
    pub children: Vec<FileTreeNode>,
    pub record_type: String,
    pub linked_record_id: String,
    pub status: String,
}

/// The tree of a workspace with its counts and the problems met while
/// scanning it.
#[derive(Debug)]
pub struct FileScanResult {
    pub root: FileTreeNode,
    pub total_files: usize,
    pub total_dirs: usize,
    pub warnings: Vec<String>,
}

/// Scans a workspace into a file tree and indexes its files.
pub struct FileTreeService;

/// The area of the workspace a file lies in.
#[derive(Debug, Clone, Copy, PartialEq, Eq, Structural)]
pub enum FileArea {
    /// An imported source document (`raw/sources/documents`, `.../webclips`).
    Source,
    /// An image or attachment (`raw/assets/images`, `.../attachments`).
    Asset,
    /// A Markdown page under `wiki/`.
    WikiPage,
    Version,
    RuntimeTask,
    SourcePreview,
    RuntimeLog,
    Schema,
    Config,
    Database,
    Unknown,
}

/// The area of a file from its path relative to the workspace root and its
/// lower-cased extension.
pub open spec fn area_of(path: Seq<char>, ext: Seq<char>) -> FileArea {
    if starts_with(path, "raw/sources/documents"@) || starts_with(path, "raw/sources/webclips"@) {
        FileArea::Source
    } else if starts_with(path, "raw/assets/images"@) || starts_with(path, "raw/assets/attachments"@) {
        FileArea::Asset
    } else if starts_with(path, "wiki/"@) && ext == "md"@ {
        FileArea::WikiPage
    } else if starts_with(path, "versions/"@) {
        FileArea::Version
    } else if starts_with(path, ".runtime/tasks"@) {
        FileArea::RuntimeTask
    } else if starts_with(path, ".runtime/source_previews"@) {
        FileArea::SourcePreview
    } else if starts_with(path, ".runtime/logs"@) {
        FileArea::RuntimeLog
    } else if starts_with(path, "schema/"@) {
        FileArea::Schema
    } else if starts_with(path, "config/"@) {
        FileArea::Config
    } else if starts_with(path, "db/"@) {
        FileArea::Database
    } else {
        FileArea::Unknown
    }
}

/// Whether files of the area are matched with a database record.
pub open spec fn has_record(area: FileArea) -> bool {
    area == FileArea::Source || area == FileArea::Asset || area == FileArea::WikiPage
}

/// The record type, linked record id and status of a file of the area,
/// given the record found for it (id and status), if any.
pub open spec fn classification(area: FileArea, found: Option<(Seq<char>, Seq<char>)>) -> (
    Seq<char>,
    Seq<char>,
    Seq<char>,
) {
    match area {
        FileArea::Source => match found {
            Some((id, st)) => ("source"@, id, st),
            None => ("source_orphan"@, Seq::empty(), "warning"@),
        },
        FileArea::Asset => match found {
            Some((id, _)) => ("asset"@, id, "ok"@),
            None => ("asset_orphan"@, Seq::empty(), "warning"@),
        },
        FileArea::WikiPage => match found {
            Some((id, st)) => ("wiki_page"@, id, st),
            None => ("wiki_orphan"@, Seq::empty(), "warning"@),
        },
        FileArea::Version => ("version"@, Seq::empty(), "ok"@),
        FileArea::RuntimeTask => ("runtime_task"@, Seq::empty(), "ok"@),
        FileArea::SourcePreview => ("source_preview"@, Seq::empty(), "ok"@),
        FileArea::RuntimeLog => ("runtime_log"@, Seq::empty(), "ok"@),
        FileArea::Schema => ("schema"@, Seq::empty(), "ok"@),
        FileArea::Config => ("config"@, Seq::empty(), "ok"@),
        FileArea::Database => ("database"@, Seq::empty(), "ok"@),
        FileArea::Unknown => ("unknown"@, Seq::empty(), "ok"@),
    }
}

impl FileTreeService {
    /// The area of a file from its relative path and lower-cased extension.
    pub fn file_area(relative_path: &str, ext: &str) -> (a: FileArea)
        ensures
            a == area_of(relative_path@, ext@),
    {
        let p = chars_of(relative_path);
        let e = chars_of(ext);
        let md = chars_of("md");
        if has_prefix(&p, "raw/sources/documents") || has_prefix(&p, "raw/sources/webclips") {
            FileArea::Source
        } else if has_prefix(&p, "raw/assets/images") || has_prefix(&p, "raw/assets/attachments") {
            FileArea::Asset
        } else if has_prefix(&p, "wiki/") && crate::gateway::seq_eq(&e, &md) {
            FileArea::WikiPage
        } else if has_prefix(&p, "versions/") {
            FileArea::Version
        } else if has_prefix(&p, ".runtime/tasks") {
            FileArea::RuntimeTask
        } else if has_prefix(&p, ".runtime/source_previews") {
            FileArea::SourcePreview
        } else if has_prefix(&p, ".runtime/logs") {
            FileArea::RuntimeLog
        } else if has_prefix(&p, "schema/") {
            FileArea::Schema
        } else if has_prefix(&p, "config/") {
            FileArea::Config
        } else if has_prefix(&p, "db/") {
            FileArea::Database
        } else {
            FileArea::Unknown
        }
    }

    /// Whether the database is searched for the record of a file of the area.
    pub fn needs_record_lookup(area: FileArea) -> (b: bool)
        ensures
            b == has_record(area),
    {
        area == FileArea::Source || area == FileArea::Asset || area == FileArea::WikiPage
    }

    /// Record type, linked record id and status of a file of the area, given
    /// the record (id, status) found for it in the database, if any.
    pub fn classify_file(area: FileArea, found: Option<(String, String)>) -> (r: (
        String,
        String,
        String,
    ))
        ensures
            (r.0@, r.1@, r.2@) == classification(
                area,
                match found {
                    Some((i, s)) => Some((i@, s@)),
                    None => None,
                },
            ),
    {
        let (kind, id, status): (&str, String, String) = match area {
            FileArea::Source => match found {
                Some((id, st)) => ("source", id, st),
                None => ("source_orphan", String::new(), String::from_str("warning")),
            },
            FileArea::Asset => match found {
                Some((id, _)) => ("asset", id, String::from_str("ok")),
                None => ("asset_orphan", String::new(), String::from_str("warning")),
            },
            FileArea::WikiPage => match found {
                Some((id, st)) => ("wiki_page", id, st),
                None => ("wiki_orphan", String::new(), String::from_str("warning")),
            },
            FileArea::Version => ("version", String::new(), String::from_str("ok")),
            FileArea::RuntimeTask => ("runtime_task", String::new(), String::from_str("ok")),
            FileArea::SourcePreview => ("source_preview", String::new(), String::from_str("ok")),
            FileArea::RuntimeLog => ("runtime_log", String::new(), String::from_str("ok")),
            FileArea::Schema => ("schema", String::new(), String::from_str("ok")),
            FileArea::Config => ("config", String::new(), String::from_str("ok")),
            FileArea::Database => ("database", String::new(), String::from_str("ok")),
            FileArea::Unknown => ("unknown", String::new(), String::from_str("ok")),
        };
        (String::from_str(kind), id, status)
    }
}


// ---------------------------------------------------------------------------
// The order and paths of the tree
// ---------------------------------------------------------------------------

/// Whether directory entry `a` comes before `b`: directories first, then by
/// name (byte order of the names, which orders characters by code point).
pub open spec fn entry_before(a: (Seq<char>, bool), b: (Seq<char>, bool)) -> bool {
    (a.1 && !b.1) || (a.1 == b.1 && chars_lt(a.0, b.0))
}

/// `s` with `x` inserted after the last entry that does not come after it.
pub open spec fn insert_entry(s: Seq<(Seq<char>, bool)>, x: (Seq<char>, bool)) -> Seq<(Seq<char>, bool)>
    decreases s.len(),
{
    if s.len() == 0 {
        seq![x]
    } else if entry_before(x, s.last()) {
        insert_entry(s.drop_last(), x).push(s.last())
    } else {
        s.push(x)
    }
}

/// The entries of a directory in the order the tree lists them: directories
/// first, then by name, entries that compare equal keeping their order
/// (what the stable `sort_by` of `Vec` gives).
pub open spec fn ordered_entries(s: Seq<(Seq<char>, bool)>) -> Seq<(Seq<char>, bool)>
    decreases s.len(),
{
    if s.len() == 0 {
        seq![]
    } else {
        insert_entry(ordered_entries(s.drop_last()), s.last())
    }
}

/// The view of directory entries: (name, is a directory).
pub open spec fn entry_views(v: Seq<(String, bool)>) -> Seq<(Seq<char>, bool)> {
    v.map_values(|e: (String, bool)| (e.0@, e.1))
}

/// The relative path shown for a tree node: `.` for the root.
pub open spec fn tree_path(rel: Seq<char>) -> Seq<char> {
    if rel.len() == 0 {
        "."@
    } else {
        rel
    }
}

proof fn lemma_insert_entry_at(s: Seq<(Seq<char>, bool)>, x: (Seq<char>, bool), p: int)
    requires
        0 <= p <= s.len(),
        forall|q: int| p <= q < s.len() ==> entry_before(x, #[trigger] s[q]),
        p > 0 ==> !entry_before(x, s[p - 1]),
    ensures
        insert_entry(s, x) == s.insert(p, x),
    decreases s.len(),
{
    if s.len() == 0 {
        assert(s.insert(p, x) =~= seq![x]);
    } else if p == s.len() {
        assert(s.last() == s[p - 1]);
        assert(s.insert(p, x) =~= s.push(x));
    } else {
        let d = s.drop_last();
        assert(entry_before(x, s[s.len() - 1]));
        assert forall|q: int| p <= q < d.len() implies entry_before(x, #[trigger] d[q]) by {
            assert(d[q] == s[q]);
        }
        if p > 0 {
            assert(d[p - 1] == s[p - 1]);
        }
        lemma_insert_entry_at(d, x, p);
        assert(d.insert(p, x).push(s.last()) =~= s.insert(p, x));
    }
}

fn entry_less(a: &(String, bool), b: &(String, bool)) -> (r: bool)
    ensures
        r == entry_before((a.0@, a.1), (b.0@, b.1)),
{
    if a.1 != b.1 {
        a.1
    } else {
        let x = chars_of(a.0.as_str());
        let y = chars_of(b.0.as_str());
        chars_less(&x, &y)
    }
}

impl FileTreeService {
    /// Orders the entries of a directory (see `ordered_entries`).
    pub fn order_entries(entries: Vec<(String, bool)>) -> (r: Vec<(String, bool)>)
        ensures
            entry_views(r@) == ordered_entries(entry_views(entries@)),
    {
        let ghost ev = entry_views(entries@);
        let mut out: Vec<(String, bool)> = Vec::new();
        let mut entries = entries;
        let ghost orig = entries@;
        let mut k: usize = 0;
        while k < entries.len()
            invariant
                k <= entries@.len() == orig.len(),
                ev == entry_views(orig),
                forall|q: int| k <= q < orig.len() ==> #[trigger] entries@[q] == orig[q],
                entry_views(out@) == ordered_entries(ev.take(k as int)),
            decreases entries.len() - k,
        {
            let ghost s = entry_views(out@);
            let mut x: (String, bool) = (String::new(), false);
            entries.set_and_swap(k, &mut x);
            assert(ev[k as int] == (x.0@, x.1));
            let mut p = out.len();
            while p > 0 && entry_less(&x, &out[p - 1])
                invariant
                    p <= out@.len(),
                    s == entry_views(out@),
                    forall|q: int| p <= q < s.len() ==> entry_before((x.0@, x.1), #[trigger] s[q]),
                decreases p,
            {
                p = p - 1;
            }
            proof {
                if p > 0 {
                    assert(s[p - 1] == (out@[p - 1].0@, out@[p - 1].1));
                }
                lemma_insert_entry_at(s, (x.0@, x.1), p as int);
                assert(ev.take(k + 1).drop_last() =~= ev.take(k as int));
                assert(ev.take(k + 1).last() == ev[k as int]);
            }
            out.insert(p, x);
            assert(entry_views(out@) =~= s.insert(p as int, ev[k as int]));
            k = k + 1;
        }
        assert(ev.take(ev.len() as int) =~= ev);
        out
    }

    /// The relative path shown for a node (see `tree_path`).
    pub fn tree_path(rel: &str) -> (p: String)
        ensures
            p@ == tree_path(rel@),
    {
        if rel.is_empty() {
            String::from_str(".")
        } else {
            String::from_str(rel)
        }
    }

    /// The node of a directory with its children.
    pub fn directory_node(name: String, relative_path: String, children: Vec<FileTreeNode>) -> (n: FileTreeNode)
        ensures
            n.name == name,
            n.relative_path == relative_path,
            n.children == children,
            n.is_directory,
            n.file_type@.len() == 0 && n.file_size == 0 && n.modified_at@.len() == 0,
            n.record_type@ == "directory"@ && n.linked_record_id@.len() == 0 && n.status@ == "ok"@,
    {
        FileTreeNode {
            name,
            relative_path,
            file_type: String::new(),
            file_size: 0,
            modified_at: String::new(),
            is_directory: true,
            children,
            record_type: String::from_str("directory"),
            linked_record_id: String::new(),
            status: String::from_str("ok"),
        }
    }

    /// The node of an entry whose metadata cannot be read, with the warning
    /// that reports it.
    pub fn error_node(name: String, relative_path: String, error: &str) -> (r: (FileTreeNode, String))
        ensures
            r.0.name == name,
            r.0.relative_path == relative_path,
            r.0.children@.len() == 0,
            !r.0.is_directory,
            r.0.file_type@.len() == 0 && r.0.file_size == 0 && r.0.modified_at@.len() == 0,
            r.0.record_type@ == "error"@ && r.0.linked_record_id@.len() == 0 && r.0.status@ == "error"@,
            r.1@ == "无法读取元数据 "@ + relative_path@ + ": "@ + error@,
    {
        let mut w = String::from_str("无法读取元数据 ");
        crate::text::push_str(&mut w, relative_path.as_str());
        crate::text::push_str(&mut w, ": ");
        crate::text::push_str(&mut w, error);
        (
            FileTreeNode {
                name,
                relative_path,
                file_type: String::new(),
                file_size: 0,
                modified_at: String::new(),
                is_directory: false,
                children: Vec::new(),
                record_type: String::from_str("error"),
                linked_record_id: String::new(),
                status: String::from_str("error"),
            },
            w,
        )
    }
}

} // verus!
