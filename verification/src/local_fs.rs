//! Plain Markdown files kept in a local folder outside any knowledge base:
//! where the folder is by default and how a file is summarised in a listing.
use vstd::prelude::*;
use crate::text::{chars_of, chars_within, floor_prefix, byte_len, trim, trim_bounds, lines,
    lines_of, vviews, push_str, string_of_range};
use crate::workspace::{join_path, join_path_str};
use crate::documents::{last_index, last_index_of, lemma_last_index_of, name_extension};
use crate::topology::{chars_less, chars_lt, name_stem};

verus! {

/// One Markdown file of the local folder.
#[derive(Debug, Clone)]
pub struct LocalFileEntry {
    pub relative_path: String,
    pub absolute_path: String,
    pub title: String,
    pub snippet: String,
}

/// Reads and writes the local Markdown folder.
pub struct LocalFsService;

/// The first line of `ls` that is not blank, or an empty line.
pub open spec fn first_nonblank(ls: Seq<Seq<char>>) -> Seq<char>
    decreases ls.len(),
{
    if ls.len() == 0 {
        Seq::empty()
    } else if trim(ls[0]).len() > 0 {
        ls[0]
    } else {
        first_nonblank(ls.drop_first())
    }
}

/// Longest snippet shown, in bytes.
pub const SNIPPET_BYTES: usize = 200;

/// The snippet of a file: its first non-blank line, cut after 200 bytes and
/// followed by `...` when longer.
pub open spec fn snippet_of(content: Seq<char>) -> Seq<char> {
    let l = first_nonblank(lines(content));
    if byte_len(l) > SNIPPET_BYTES {
        l.take(chars_within(l, SNIPPET_BYTES as nat, 0, 0)) + "..."@
    } else {
        l
    }
}

/// Whether the snippet line can be cut after 200 bytes: it is not longer,
/// or a character ends exactly there.
pub open spec fn snippet_cuttable(content: Seq<char>) -> bool {
    let l = first_nonblank(lines(content));
    byte_len(l) <= SNIPPET_BYTES || byte_len(l.take(chars_within(l, SNIPPET_BYTES as nat, 0, 0)))
        == SNIPPET_BYTES
}

/// The default local folder: `{home}/Documents/LLMWiki`, or `LLMWiki`
/// relative to the working directory when the home directory is unknown.
pub open spec fn default_root(home: Option<Seq<char>>) -> Seq<char> {
    match home {
        Some(h) => join_path(join_path(h, "Documents"@), "LLMWiki"@),
        None => "LLMWiki"@,
    }
}

/// The title a file gets in the listing: the stem of its name when its
/// extension (as `Path::extension` reads it) is exactly `md`; other files are
/// not listed.
pub open spec fn md_title(name: Seq<char>) -> Option<Seq<char>> {
    if name_extension(name) == "md"@ {
        Some(name_stem(name))
    } else {
        None
    }
}

/// `s` with `x` inserted after the last entry whose relative path does not
/// come after that of `x`.
pub open spec fn insert_by_relative_path(s: Seq<LocalFileEntry>, x: LocalFileEntry) -> Seq<LocalFileEntry>
    decreases s.len(),
{
    if s.len() == 0 {
        seq![x]
    } else if chars_lt(x.relative_path@, s.last().relative_path@) {
        insert_by_relative_path(s.drop_last(), x).push(s.last())
    } else {
        s.push(x)
    }
}

/// The entries ordered by relative path (byte order, which orders characters
/// by code point), entries with equal paths keeping their order: what the
/// stable `sort_by` of `Vec` gives.
pub open spec fn sorted_by_relative_path(s: Seq<LocalFileEntry>) -> Seq<LocalFileEntry>
    decreases s.len(),
{
    if s.len() == 0 {
        seq![]
    } else {
        insert_by_relative_path(sorted_by_relative_path(s.drop_last()), s.last())
    }
}

proof fn lemma_insert_by_relative_path_at(s: Seq<LocalFileEntry>, x: LocalFileEntry, p: int)
    requires
        0 <= p <= s.len(),
        forall|q: int| p <= q < s.len() ==> chars_lt(x.relative_path@, (#[trigger] s[q]).relative_path@),
        p > 0 ==> !chars_lt(x.relative_path@, s[p - 1].relative_path@),
    ensures
        insert_by_relative_path(s, x) == s.insert(p, x),
    decreases s.len(),
{
    if s.len() == 0 {
        assert(s.insert(p, x) =~= seq![x]);
    } else if p == s.len() {
        assert(s.last() == s[p - 1]);
        assert(s.insert(p, x) =~= s.push(x));
    } else {
        let d = s.drop_last();
        assert(chars_lt(x.relative_path@, s[s.len() - 1].relative_path@));
        assert forall|q: int| p <= q < d.len() implies chars_lt(x.relative_path@, (#[trigger] d[q]).relative_path@) by {
            assert(d[q] == s[q]);
        }
        if p > 0 {
            assert(d[p - 1] == s[p - 1]);
        }
        lemma_insert_by_relative_path_at(d, x, p);
        assert(d.insert(p, x).push(s.last()) =~= s.insert(p, x));
    }
}

fn path_less(a: &LocalFileEntry, b: &LocalFileEntry) -> (r: bool)
    ensures
        r == chars_lt(a.relative_path@, b.relative_path@),
{
    let x = chars_of(a.relative_path.as_str());
    let y = chars_of(b.relative_path.as_str());
    chars_less(&x, &y)
}

impl LocalFsService {
    /// The title of a file of the local folder, from its name (see
    /// `md_title`): `None` for a file that is not Markdown.
    pub fn markdown_title(file_name: &str) -> (r: Option<String>)
        ensures
            match (r, md_title(file_name@)) {
                (Some(t), Some(u)) => t@ == u,
                (None, None) => true,
                _ => false,
            },
    {
        let cs = chars_of(file_name);
        let n = cs.len();
        let dot = last_index(&cs, n, '.');
        assert(cs@.take(n as int) =~= cs@);
        proof {
            reveal_strlit("md");
            lemma_last_index_of(cs@, '.');
        }
        match dot {
            Some(i) => {
                assert(last_index_of(cs@, '.') == Some(i as int));
                if i > 0 && n - i == 3 && cs[i + 1] == 'm' && cs[i + 2] == 'd' {
                    assert(cs@.skip(i + 1) =~= "md"@);
                    let t = string_of_range(&cs, 0, i);
                    assert(t@ =~= cs@.take(i as int));
                    assert(name_extension(cs@) == "md"@);
                    assert(name_stem(cs@) == cs@.take(i as int));
                    Some(t)
                } else {
                    assert(i == 0 || cs@.skip(i + 1) != "md"@) by {
                        if i > 0 && cs@.skip(i + 1) == "md"@ {
                            assert(cs@.skip(i + 1).len() == 2);
                            assert(cs@.skip(i + 1)[0] == cs@[i + 1]);
                            assert(cs@.skip(i + 1)[1] == cs@[i + 2]);
                        }
                    }
                    assert(md_title(cs@) is None);
                    None
                }
            },
            None => {
                assert(name_extension(cs@).len() == 0);
                None
            },
        }
    }

    /// Orders the entries of a listing by relative path (see
    /// `sorted_by_relative_path`).
    pub fn sort_by_relative_path(entries: Vec<LocalFileEntry>) -> (r: Vec<LocalFileEntry>)
        ensures
            r@ == sorted_by_relative_path(entries@),
    {
        let mut out: Vec<LocalFileEntry> = Vec::new();
        let mut entries = entries;
        let ghost orig = entries@;
        let mut k: usize = 0;
        while k < entries.len()
            invariant
                k <= entries@.len() == orig.len(),
                forall|q: int| k <= q < orig.len() ==> #[trigger] entries@[q] == orig[q],
                out@ == sorted_by_relative_path(orig.take(k as int)),
            decreases entries.len() - k,
        {
            let ghost s = out@;
            let mut x = LocalFileEntry {
                relative_path: String::new(),
                absolute_path: String::new(),
                title: String::new(),
                snippet: String::new(),
            };
            entries.set_and_swap(k, &mut x);
            assert(x == orig[k as int]);
            let mut p = out.len();
            while p > 0 && path_less(&x, &out[p - 1])
                invariant
                    p <= out@.len(),
                    s == out@,
                    forall|q: int| p <= q < s.len() ==> chars_lt(x.relative_path@, (#[trigger] s[q]).relative_path@),
                decreases p,
            {
                p = p - 1;
            }
            proof {
                lemma_insert_by_relative_path_at(s, x, p as int);
                assert(orig.take(k + 1).drop_last() =~= orig.take(k as int));
                assert(orig.take(k + 1).last() == orig[k as int]);
            }
            out.insert(p, x);
            k = k + 1;
        }
        assert(orig.take(orig.len() as int) =~= orig);
        out
    }

    /// The default local folder under the user's home directory (`HOME`, or
    /// `USERPROFILE` on Windows), as looked up by the caller.
    pub fn get_default_local_root(home: Option<&str>) -> (root: String)
        ensures
            root@ == default_root(
                match home {
                    Some(h) => Some(h@),
                    None => None,
                },
            ),
    {
        match home {
            Some(h) => {
                let docs = join_path_str(h, "Documents");
                join_path_str(docs.as_str(), "LLMWiki")
            },
            None => String::from_str("LLMWiki"),
        }
    }

    /// The snippet shown for a Markdown file with this content.
    pub fn snippet(content: &str) -> (s: String)
        requires
            snippet_cuttable(content@),
        ensures
            s@ == snippet_of(content@),
    {
        let cs = chars_of(content);
        let ls = lines_of(&cs);
        let mut i: usize = 0;
        assert(vviews(ls@).skip(0) =~= vviews(ls@));
        while i < ls.len()
            invariant
                i <= ls@.len(),
                vviews(ls@) == lines(content@),
                first_nonblank(vviews(ls@).skip(i as int)) == first_nonblank(lines(content@)),
            decreases ls.len() - i,
        {
            let line = &ls[i];
            let (lo, hi) = trim_bounds(line, 0, line.len());
            assert(line@.subrange(0, line@.len() as int) =~= line@);
            let ghost rest = vviews(ls@).skip(i as int);
            assert(rest[0] == line@);
            if lo < hi {
                let n = line.len();
                let (k, used) = floor_prefix(line, SNIPPET_BYTES);
                let total = crate::text::byte_len_le(line, 0, n, SNIPPET_BYTES);
                assert(line@.subrange(0, n as int) =~= line@);
                if total {
                    return string_of_range(line, 0, n);
                }
                let mut s = string_of_range(line, 0, k);
                assert(s@ =~= line@.take(k as int));
                push_str(&mut s, "...");
                return s;
            }
            assert(rest.drop_first() =~= vviews(ls@).skip(i + 1));
            i = i + 1;
        }
        assert(vviews(ls@).skip(i as int) =~= Seq::<Seq<char>>::empty());
        String::new()
    }
}

} // verus!
