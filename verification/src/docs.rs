//! Publishing the documentation book: the link and URL rewriting that gives
//! every chapter a directory URL, and the `llms.txt` index built from the
//! book's metadata and its pages' lead paragraphs.

use vstd::prelude::*;
use crate::text::{
    chars_eq, chars_of, find_ch_from, find_from, find_char, find_at, lemma_find_char,
    lemma_find_from, lemma_find_from_skip, lines, lines_of, occurs_at, push_all, push_str,
    replace_all, replace_char, replace_str, replace_vec, starts_with, starts_with_at, ends_with,
    string_of, strip_trailing, strip_trailing_vec, sub_chars, trim, trim_start, trim_start_vec,
    trim_vec, vviews, join_spaced, path_extension, extension_of, ci_eq, eq_ignore_ascii_case,
};

verus! {

/// The published book's base URL.
pub const DOCS_BASE_URL: &'static str = "https://kevinselwyn.github.io/nessemble-rs/docs/";

// ---------------------------------------------------------------------------
// Chapter links
// ---------------------------------------------------------------------------

/// The first position of `c` in `s` at or after `from`.
pub open spec fn index_from(s: Seq<char>, c: char, from: int) -> Option<int> {
    find_from(s, seq![c], from)
}

/// A link target mapped to the one-directory-per-chapter layout. Only a flat
/// internal `foo.md` (no `/`, no `:`) is rewritten, to `foo/index.md` (the
/// introduction `index.md` stays at the root); a page that itself moved into
/// a directory gets an extra `../`. A `#fragment` is kept.
pub open spec fn link_target(target: Seq<char>, in_chapter_dir: bool) -> Seq<char> {
    let hash = index_from(target, '#', 0);
    let path = match hash {
        Some(h) => target.take(h),
        None => target,
    };
    let stem = path.take(path.len() - 3);
    if !(".md"@.is_suffix_of(path) && stem.len() > 0 && !path.contains('/') && !path.contains(
        ':',
    )) {
        target
    } else {
        let new_path = if stem == "index"@ {
            if in_chapter_dir {
                "../index.md"@
            } else {
                "index.md"@
            }
        } else if in_chapter_dir {
            "../"@ + stem + "/index.md"@
        } else {
            stem + "/index.md"@
        };
        match hash {
            Some(h) => new_path + "#"@ + target.skip(h + 1),
            None => new_path,
        }
    }
}

/// Whether `c` occurs in `v`.
fn has_char(v: &[char], c: char) -> (r: bool)
    ensures
        r == v@.contains(c),
{
    let mut i: usize = 0;
    while i < v.len()
        invariant
            i <= v.len(),
            forall|j: int| 0 <= j < i ==> v@[j] != c,
        decreases v.len() - i,
    {
        if v[i] == c {
            return true;
        }
        i += 1;
    }
    false
}

/// Map a single link target to the directory layout.
pub fn rewrite_link_target(target: &str, in_chapter_dir: bool) -> (r: String)
    ensures
        r@ == link_target(target@, in_chapter_dir),
{
    let t = chars_of(target);
    proof {
        lemma_find_from(t@, seq!['#'], 0);
        reveal_strlit(".md");
    }
    let hash = find_ch_from(&t, '#', 0);
    let path = match hash {
        Some(h) => sub_chars(&t, 0, h),
        None => sub_chars(&t, 0, t.len()),
    };
    assert(path@ =~= match hash {
        Some(h) => t@.take(h as int),
        None => t@,
    });
    let md = chars_of(".md");
    if !(ends_with(&path, &md) && path.len() > 3 && !has_char(&path, '/') && !has_char(
        &path,
        ':',
    )) {
        return string_of(&t);
    }
    let stem = sub_chars(&path, 0, path.len() - 3);
    let mut out: Vec<char> = Vec::new();
    if chars_eq(&stem, &chars_of("index")) {
        if in_chapter_dir {
            push_str(&mut out, "../index.md");
        } else {
            push_str(&mut out, "index.md");
        }
    } else if in_chapter_dir {
        push_str(&mut out, "../");
        push_all(&mut out, &stem);
        push_str(&mut out, "/index.md");
    } else {
        push_all(&mut out, &stem);
        push_str(&mut out, "/index.md");
    }
    match hash {
        Some(h) => {
            push_str(&mut out, "#");
            push_all(&mut out, &sub_chars(&t, h + 1, t.len()));
            assert(t@.subrange(h + 1, t@.len() as int) =~= t@.skip(h + 1));
        },
        None => {},
    }
    string_of(&out)
}

/// The text from `i` with every `](target)` link target rewritten.
pub open spec fn chapter_links_from(s: Seq<char>, i: int, in_chapter_dir: bool) -> Seq<char>
    decreases s.len() - i,
{
    if i < 0 || i >= s.len() {
        Seq::empty()
    } else if s[i] == ']' && i + 1 < s.len() && s[i + 1] == '(' && index_from(s, ')', i + 2)
        is Some {
        let close = index_from(s, ')', i + 2).unwrap();
        if i + 2 <= close < s.len() {
            "]("@ + link_target(s.subrange(i + 2, close), in_chapter_dir) + ")"@
                + chapter_links_from(s, close + 1, in_chapter_dir)
        } else {
            Seq::empty()
        }
    } else {
        seq![s[i]] + chapter_links_from(s, i + 1, in_chapter_dir)
    }
}

/// Rewrite every `](foo.md)` chapter link in `text` for the directory
/// layout; everything else is kept as it is.
pub fn rewrite_chapter_links(text: &str, in_chapter_dir: bool) -> (r: String)
    ensures
        r@ == chapter_links_from(text@, 0, in_chapter_dir),
{
    let s = chars_of(text);
    let mut out: Vec<char> = Vec::new();
    let mut i: usize = 0;
    while i < s.len()
        invariant
            i <= s.len(),
            s@ == text@,
            out@ + chapter_links_from(s@, i as int, in_chapter_dir) == chapter_links_from(
                s@,
                0,
                in_chapter_dir,
            ),
        decreases s.len() - i,
    {
        let ghost prev = out@;
        if s[i] == ']' && i + 1 < s.len() && s[i + 1] == '(' {
            proof {
                lemma_find_from(s@, seq![')'], i + 2);
            }
            match find_ch_from(&s, ')', i + 2) {
                Some(close) => {
                    let target = string_of(&sub_chars(&s, i + 2, close));
                    push_str(&mut out, "](");
                    push_str(&mut out, rewrite_link_target(target.as_str(), in_chapter_dir).as_str());
                    push_str(&mut out, ")");
                    assert(out@ + chapter_links_from(s@, close + 1, in_chapter_dir) =~= prev
                        + chapter_links_from(s@, i as int, in_chapter_dir));
                    i = close + 1;
                    continue;
                },
                None => {},
            }
        }
        out.push(s[i]);
        assert(out@ + chapter_links_from(s@, i + 1, in_chapter_dir) =~= prev + chapter_links_from(
            s@,
            i as int,
            in_chapter_dir,
        ));
        i += 1;
    }
    string_of(&out)
}

/// The four replacements that take `index.html` out of generated URLs: a
/// bare `"index.html"` becomes `"./"`, and `dir/index.html` becomes `dir/`.
pub open spec fn without_index_html(text: Seq<char>) -> Seq<char> {
    replace_all(
        replace_all(
            replace_all(replace_all(text, "\"index.html#"@, "\"#"@), "\"index.html\""@, "\"./\""@),
            "index.html#"@,
            "#"@,
        ),
        "index.html\""@,
        "\""@,
    )
}

/// Remove `index.html` from the quoted and anchored URLs in `text`.
pub fn strip_index_html(text: &str) -> (r: String)
    ensures
        r@ == without_index_html(text@),
{
    proof {
        reveal_strlit("\"index.html#");
        reveal_strlit("\"index.html\"");
        reveal_strlit("index.html#");
        reveal_strlit("index.html\"");
    }
    let a = replace_str(&chars_of(text), &chars_of("\"index.html#"), &chars_of("\"#"));
    let b = replace_str(&a, &chars_of("\"index.html\""), &chars_of("\"./\""));
    let c = replace_str(&b, &chars_of("index.html#"), &chars_of("#"));
    let d = replace_str(&c, &chars_of("index.html\""), &chars_of("\""));
    string_of(&d)
}

/// HTML-escape `&`, `<` and `>`.
pub open spec fn html_escaped(s: Seq<char>) -> Seq<char> {
    replace_char(replace_char(replace_char(s, '&', "&amp;"@), '<', "&lt;"@), '>', "&gt;"@)
}

/// Escape `&`, `<` and `>` for HTML.
pub fn escape_html(s: &str) -> (r: String)
    ensures
        r@ == html_escaped(s@),
{
    let a = replace_vec(&chars_of(s), '&', &chars_of("&amp;"));
    let b = replace_vec(&a, '<', &chars_of("&lt;"));
    let c = replace_vec(&b, '>', &chars_of("&gt;"));
    string_of(&c)
}

// ---------------------------------------------------------------------------
// Book metadata and the summary
// ---------------------------------------------------------------------------

/// The unquoted value of `line` when it is `key = "value"`.
pub open spec fn toml_value(line: Seq<char>, key: Seq<char>) -> Option<Seq<char>> {
    if !key.is_prefix_of(line) {
        None
    } else {
        let a = trim_start(line.skip(key.len() as int));
        if a.len() == 0 || a[0] != '=' {
            None
        } else {
            let b = trim(a.skip(1));
            if b.len() >= 2 && b[0] == '"' && b.last() == '"' {
                Some(b.subrange(1, b.len() - 1))
            } else {
                None
            }
        }
    }
}

/// If `line` is `key = "value"`, the unquoted value.
pub fn toml_str_value(line: &str, key: &str) -> (r: Option<String>)
    ensures
        match toml_value(line@, key@) {
            Some(v) => r matches Some(x) && x@ == v,
            None => r is None,
        },
{
    let l = chars_of(line);
    let k = chars_of(key);
    if !starts_with(&l, &k) {
        return None;
    }
    let rest = sub_chars(&l, k.len(), l.len());
    assert(rest@ =~= l@.skip(k@.len() as int));
    let a = trim_start_vec(&rest);
    if a.len() == 0 || a[0] != '=' {
        return None;
    }
    let a1 = sub_chars(&a, 1, a.len());
    assert(a1@ =~= a@.skip(1));
    let b = trim_vec(&a1);
    if b.len() >= 2 && b[0] == '"' && b[b.len() - 1] == '"' {
        Some(string_of(&sub_chars(&b, 1, b.len() - 1)))
    } else {
        None
    }
}

/// The title and description under `[book]`, reading lines from `i` until
/// another table starts; the title defaults to `nessemble`.
pub open spec fn book_meta_from(
    ls: Seq<Seq<char>>,
    i: int,
    title: Seq<char>,
    description: Option<Seq<char>>,
) -> (Seq<char>, Option<Seq<char>>)
    decreases ls.len() - i,
{
    if i < 0 || i >= ls.len() {
        (title, description)
    } else {
        let t = trim(ls[i]);
        if t.len() > 0 && t[0] == '[' && t != "[book]"@ {
            (title, description)
        } else if toml_value(t, "title"@) is Some {
            book_meta_from(ls, i + 1, toml_value(t, "title"@).unwrap(), description)
        } else if toml_value(t, "description"@) is Some {
            book_meta_from(ls, i + 1, title, toml_value(t, "description"@))
        } else {
            book_meta_from(ls, i + 1, title, description)
        }
    }
}

/// Pull the title and description from the `[book]` table of `book.toml`.
pub fn book_meta(book_toml: &str) -> (r: (String, Option<String>))
    ensures
        ({
            let m = book_meta_from(lines(book_toml@), 0, "nessemble"@, None);
            r.0@ == m.0 && (match m.1 {
                Some(d) => r.1 matches Some(x) && x@ == d,
                None => r.1 is None,
            })
        }),
{
    let ls = lines_of(&chars_of(book_toml));
    let mut title = String::from_str("nessemble");
    let mut description: Option<String> = None;
    let book = chars_of("[book]");
    let mut i: usize = 0;
    while i < ls.len()
        invariant
            i <= ls.len(),
            vviews(ls@) == lines(book_toml@),
            book@ == "[book]"@,
            book_meta_from(lines(book_toml@), 0, "nessemble"@, None) == book_meta_from(
                lines(book_toml@),
                i as int,
                title@,
                match description {
                    Some(d) => Some(d@),
                    None => None,
                },
            ),
        decreases ls.len() - i,
    {
        assert(vviews(ls@)[i as int] == ls@[i as int]@);
        let t = trim_vec(&ls[i]);
        if t.len() > 0 && t[0] == '[' && !chars_eq(&t, &book) {
            return (title, description);
        }
        let ts = string_of(&t);
        match toml_str_value(ts.as_str(), "title") {
            Some(v) => {
                title = v;
            },
            None => {
                match toml_str_value(ts.as_str(), "description") {
                    Some(v) => {
                        description = Some(v);
                    },
                    None => {},
                }
            },
        }
        i += 1;
    }
    (title, description)
}

/// The link in a `SUMMARY.md` line: the first `[text](target)`, with its
/// text and target, when the target is a local Markdown file.
pub open spec fn md_link(line: Seq<char>) -> Option<(Seq<char>, Seq<char>)> {
    match index_from(line, '[', 0) {
        None => None,
        Some(open) => match find_from(line, "]("@, open) {
            None => None,
            Some(close) => match index_from(line, ')', close + 2) {
                None => None,
                Some(end) => {
                    let href = line.subrange(close + 2, end);
                    if md_extension(href) && find_from(href, "://"@, 0) is None {
                        Some((line.subrange(open + 1, close), href))
                    } else {
                        None
                    }
                },
            },
        },
    }
}

/// Whether `p` has the extension `md`, in any ASCII case.
pub open spec fn md_extension(p: Seq<char>) -> bool {
    match path_extension(p) {
        Some(e) => ci_eq(e, "md"@),
        None => false,
    }
}

/// Whether the path `p` has the extension `md`, in any ASCII case.
fn has_md_extension(p: &str) -> (r: bool)
    ensures
        r == md_extension(p@),
{
    match extension_of(p) {
        Some(e) => {
            let x = chars_of(e.as_str());
            let md = chars_of("md");
            eq_ignore_ascii_case(&x, &md)
        },
        None => false,
    }
}

/// The first local Markdown link on `line`.
pub fn first_md_link(line: &str) -> (r: Option<(String, String)>)
    ensures
        match md_link(line@) {
            Some((t, h)) => r matches Some(x) && x.0@ == t && x.1@ == h,
            None => r is None,
        },
{
    let l = chars_of(line);
    proof {
        lemma_find_from(l@, seq!['['], 0);
    }
    let open = match find_ch_from(&l, '[', 0) {
        Some(o) => o,
        None => {
            return None;
        },
    };
    let pat = chars_of("](");
    proof {
        reveal_strlit("](");
        assert("]("@.len() == 2);
        lemma_find_from(l@, pat@, open as int);
    }
    let close = match find_at(&l, &pat, open) {
        Some(c) => c,
        None => {
            return None;
        },
    };
    proof {
        assert(l@.subrange(close as int, close + 2)[0] == l@[close as int]);
        assert(pat@[0] == ']');
        assert(close != open);
    }
    let end = match find_ch_from(&l, ')', close + 2) {
        Some(e) => e,
        None => {
            return None;
        },
    };
    let href = sub_chars(&l, close + 2, end);
    let href_s = string_of(&href);
    let sep = chars_of("://");
    let found = find_at(&href, &sep, 0);
    if has_md_extension(href_s.as_str()) && found.is_none() {
        Some((string_of(&sub_chars(&l, open + 1, close)), href_s))
    } else {
        None
    }
}

/// The local pages a `SUMMARY.md` lists, in order.
pub open spec fn summary_links(ls: Seq<Seq<char>>) -> Seq<(Seq<char>, Seq<char>)>
    decreases ls.len(),
{
    if ls.len() == 0 {
        Seq::empty()
    } else {
        match md_link(ls.last()) {
            Some(l) => summary_links(ls.drop_last()).push(l),
            None => summary_links(ls.drop_last()),
        }
    }
}

/// The views of a list of string pairs.
pub open spec fn pair_views(v: Seq<(String, String)>) -> Seq<(Seq<char>, Seq<char>)> {
    v.map_values(|p: (String, String)| (p.0@, p.1@))
}

/// Parse `SUMMARY.md` into ordered (link text, page path) pairs, keeping only
/// links to local Markdown files.
pub fn parse_summary(summary: &str) -> (r: Vec<(String, String)>)
    ensures
        pair_views(r@) == summary_links(lines(summary@)),
{
    let ls = lines_of(&chars_of(summary));
    let mut out: Vec<(String, String)> = Vec::new();
    let mut i: usize = 0;
    while i < ls.len()
        invariant
            i <= ls.len(),
            vviews(ls@) == lines(summary@),
            pair_views(out@) == summary_links(lines(summary@).take(i as int)),
        decreases ls.len() - i,
    {
        let ghost t = lines(summary@).take(i as int);
        assert(lines(summary@).take(i + 1).drop_last() =~= t);
        assert(vviews(ls@)[i as int] == ls@[i as int]@);
        let line = string_of(&ls[i]);
        match first_md_link(line.as_str()) {
            Some(link) => {
                let ghost prev = pair_views(out@);
                out.push(link);
                assert(pair_views(out@) =~= prev.push((link.0@, link.1@)));
            },
            None => {},
        }
        i += 1;
    }
    assert(lines(summary@).take(ls.len() as int) =~= lines(summary@));
    out
}

/// The served URL of a book page: `foo.md` is served at `foo/`, and the
/// introduction `index.md` at the root.
pub open spec fn page_url(file: Seq<char>) -> Seq<char> {
    let stem = if ".md"@.is_suffix_of(file) {
        file.take(file.len() - 3)
    } else {
        file
    };
    if stem == "index"@ {
        DOCS_BASE_URL@
    } else {
        DOCS_BASE_URL@ + stem + "/"@
    }
}

/// Map a book-relative `.md` path to its served URL.
pub fn md_to_url(file: &str) -> (r: String)
    ensures
        r@ == page_url(file@),
{
    let f = chars_of(file);
    let md = chars_of(".md");
    proof {
        reveal_strlit(".md");
    }
    let stem = if ends_with(&f, &md) {
        sub_chars(&f, 0, f.len() - 3)
    } else {
        sub_chars(&f, 0, f.len())
    };
    assert(stem@ =~= (if ".md"@.is_suffix_of(f@) {
        f@.take(f@.len() - 3)
    } else {
        f@
    }));
    let mut out = chars_of(DOCS_BASE_URL);
    if !chars_eq(&stem, &chars_of("index")) {
        push_all(&mut out, &stem);
        push_str(&mut out, "/");
    }
    string_of(&out)
}

// ---------------------------------------------------------------------------
// Lead paragraphs
// ---------------------------------------------------------------------------

/// Whether a trimmed line starts a non-prose block: a heading, a table row,
/// a list item, a block quote, or raw HTML.
pub open spec fn non_prose(t: Seq<char>) -> bool {
    t.len() > 0 && (t[0] == '#' || t[0] == '|' || t[0] == '-' || t[0] == '*' || t[0] == '>'
        || t[0] == '<')
}

/// Whether a trimmed line starts a non-prose block.
pub fn is_non_prose(t: &str) -> (r: bool)
    ensures
        r == non_prose(t@),
{
    let v = chars_of(t);
    v.len() > 0 && (v[0] == '#' || v[0] == '|' || v[0] == '-' || v[0] == '*' || v[0] == '>'
        || v[0] == '<')
}

/// The lines of a page's lead paragraph, scanning lines from `i`: the first
/// prose paragraph after the level-one heading, skipping a code fence and
/// non-prose lines before it.
pub open spec fn lead_lines(
    ls: Seq<Seq<char>>,
    i: int,
    past_h1: bool,
    in_fence: bool,
    para: Seq<Seq<char>>,
) -> Seq<Seq<char>>
    decreases ls.len() - i,
{
    if i < 0 || i >= ls.len() {
        para
    } else {
        let t = trim(ls[i]);
        if !past_h1 {
            lead_lines(ls, i + 1, "# "@.is_prefix_of(t), in_fence, para)
        } else if "```"@.is_prefix_of(t) {
            if para.len() == 0 {
                lead_lines(ls, i + 1, past_h1, !in_fence, para)
            } else {
                para
            }
        } else if in_fence {
            lead_lines(ls, i + 1, past_h1, in_fence, para)
        } else if t.len() == 0 {
            if para.len() == 0 {
                lead_lines(ls, i + 1, past_h1, in_fence, para)
            } else {
                para
            }
        } else if para.len() == 0 && non_prose(t) {
            lead_lines(ls, i + 1, past_h1, in_fence, para)
        } else {
            lead_lines(ls, i + 1, past_h1, in_fence, para.push(t))
        }
    }
}

/// A page's description: its lead paragraph on one line, links reduced to
/// their text, cut to the first sentence; `None` without a prose lead.
pub open spec fn lead_spec(content: Seq<char>) -> Option<Seq<char>> {
    let para = lead_lines(lines(content), 0, false, false, Seq::empty());
    if para.len() == 0 {
        None
    } else {
        Some(sentence(md_text_from(join_spaced(para), 0)))
    }
}

/// Derive a one-line description from a page's lead paragraph.
pub fn lead_description(content: &str) -> (r: Option<String>)
    ensures
        match lead_spec(content@) {
            Some(d) => r matches Some(x) && x@ == d,
            None => r is None,
        },
{
    let ls = lines_of(&chars_of(content));
    let h1 = chars_of("# ");
    let fence = chars_of("```");
    let mut past_h1 = false;
    let mut in_fence = false;
    let mut para: Vec<Vec<char>> = Vec::new();
    let mut i: usize = 0;
    let mut done = false;
    assert(vviews(para@) =~= Seq::<Seq<char>>::empty());
    while i < ls.len() && !done
        invariant
            i <= ls.len(),
            vviews(ls@) == lines(content@),
            h1@ == "# "@,
            fence@ == "```"@,
            !done ==> lead_lines(lines(content@), 0, false, false, Seq::empty()) == lead_lines(
                lines(content@),
                i as int,
                past_h1,
                in_fence,
                vviews(para@),
            ),
            done ==> lead_lines(lines(content@), 0, false, false, Seq::empty()) == vviews(para@),
        decreases ls.len() - i, if done { 0int } else { 1int },
    {
        assert(vviews(ls@)[i as int] == ls@[i as int]@);
        let t = trim_vec(&ls[i]);
        if !past_h1 {
            past_h1 = starts_with(&t, &h1);
        } else if starts_with(&t, &fence) {
            if para.len() == 0 {
                in_fence = !in_fence;
            } else {
                done = true;
            }
        } else if in_fence {
        } else if t.len() == 0 {
            if para.len() != 0 {
                done = true;
            }
        } else if para.len() == 0 && is_non_prose(string_of(&t).as_str()) {
        } else {
            let ghost prev = vviews(para@);
            para.push(t);
            assert(vviews(para@) =~= prev.push(trim(lines(content@)[i as int])));
        }
        if !done {
            i += 1;
        }
    }
    if para.len() == 0 {
        return None;
    }
    let mut joined: Vec<char> = Vec::new();
    let mut k: usize = 0;
    assert(vviews(para@).take(0) =~= Seq::<Seq<char>>::empty());
    while k < para.len()
        invariant
            k <= para.len(),
            joined@ == join_spaced(vviews(para@).take(k as int)),
        decreases para.len() - k,
    {
        let ghost prev = vviews(para@).take(k as int);
        let ghost next = vviews(para@).take(k + 1);
        assert(next.drop_last() =~= prev);
        assert(next.last() == para@[k as int]@);
        if k > 0 {
            push_str(&mut joined, " ");
        }
        push_all(&mut joined, &para[k]);
        k += 1;
    }
    assert(vviews(para@).take(para.len() as int) =~= vviews(para@));
    let stripped = strip_md_links(string_of(&joined).as_str());
    Some(first_sentence(stripped.as_str()))
}

/// The text from `i` with Markdown link syntax reduced to the visible text:
/// `[text](url)` and `[text][ref]` become `text`, a bare `[text]` keeps
/// `text`.
pub open spec fn md_text_from(s: Seq<char>, i: int) -> Seq<char>
    decreases s.len() - i,
{
    if i < 0 || i >= s.len() {
        Seq::empty()
    } else if s[i] == '[' && index_from(s, ']', i + 1) is Some {
        let close = index_from(s, ']', i + 1).unwrap();
        let text = s.subrange(i + 1, close);
        let after = close + 1;
        if !(i < close < s.len()) {
            Seq::empty()
        } else if after < s.len() && s[after] == '(' && index_from(s, ')', after) is Some {
            let p = index_from(s, ')', after).unwrap();
            if after <= p < s.len() {
                text + md_text_from(s, p + 1)
            } else {
                Seq::empty()
            }
        } else if after < s.len() && s[after] == '[' && index_from(s, ']', after) is Some {
            let p = index_from(s, ']', after).unwrap();
            if after <= p < s.len() {
                text + md_text_from(s, p + 1)
            } else {
                Seq::empty()
            }
        } else {
            text + md_text_from(s, after)
        }
    } else {
        seq![s[i]] + md_text_from(s, i + 1)
    }
}

/// Replace Markdown link syntax with its visible text.
pub fn strip_md_links(s: &str) -> (r: String)
    ensures
        r@ == md_text_from(s@, 0),
{
    let v = chars_of(s);
    let mut out: Vec<char> = Vec::new();
    let mut i: usize = 0;
    while i < v.len()
        invariant
            i <= v.len(),
            v@ == s@,
            out@ + md_text_from(v@, i as int) == md_text_from(v@, 0),
        decreases v.len() - i,
    {
        let ghost prev = out@;
        if v[i] == '[' {
            match find_ch_from(&v, ']', i + 1) {
                Some(close) => {
                    let text = sub_chars(&v, i + 1, close);
                    let after = close + 1;
                    push_all(&mut out, &text);
                    if after < v.len() && v[after] == '(' {
                        match find_ch_from(&v, ')', after) {
                            Some(p) => {
                                assert(out@ + md_text_from(v@, p + 1) =~= prev + md_text_from(
                                    v@,
                                    i as int,
                                ));
                                i = p + 1;
                                continue;
                            },
                            None => {},
                        }
                    } else if after < v.len() && v[after] == '[' {
                        match find_ch_from(&v, ']', after) {
                            Some(p) => {
                                assert(out@ + md_text_from(v@, p + 1) =~= prev + md_text_from(
                                    v@,
                                    i as int,
                                ));
                                i = p + 1;
                                continue;
                            },
                            None => {},
                        }
                    }
                    assert(out@ + md_text_from(v@, after as int) =~= prev + md_text_from(
                        v@,
                        i as int,
                    ));
                    i = after;
                    continue;
                },
                None => {},
            }
        }
        out.push(v[i]);
        assert(out@ + md_text_from(v@, i + 1) =~= prev + md_text_from(v@, i as int));
        i += 1;
    }
    string_of(&out)
}

/// The first `.` at or after `i` that ends a sentence: followed by a space
/// or by the end of the text.
pub open spec fn sentence_end(t: Seq<char>, i: int) -> Option<int>
    decreases t.len() - i,
{
    if i < 0 || i >= t.len() {
        None
    } else if t[i] == '.' && (i + 1 == t.len() || t[i + 1] == ' ') {
        Some(i)
    } else {
        sentence_end(t, i + 1)
    }
}

/// A flattened paragraph cut to its first sentence; with no sentence end, a
/// trailing `:` is dropped.
pub open spec fn sentence(s: Seq<char>) -> Seq<char> {
    let t = trim(s);
    match sentence_end(t, 0) {
        Some(k) => trim(t.take(k + 1)),
        None => trim(strip_trailing(t, ':')),
    }
}

/// Trim a flattened paragraph to its first sentence.
pub fn first_sentence(s: &str) -> (r: String)
    ensures
        r@ == sentence(s@),
{
    let t = trim_vec(&chars_of(s));
    let mut i: usize = 0;
    while i < t.len()
        invariant
            i <= t.len(),
            t@ == trim(s@),
            sentence_end(t@, 0) == sentence_end(t@, i as int),
        decreases t.len() - i,
    {
        if t[i] == '.' && (i + 1 == t.len() || t[i + 1] == ' ') {
            let head = sub_chars(&t, 0, i + 1);
            assert(head@ =~= t@.take(i + 1));
            return string_of(&trim_vec(&head));
        }
        i += 1;
    }
    string_of(&trim_vec(&strip_trailing_vec(&t, ':')))
}

// ---------------------------------------------------------------------------
// llms.txt
// ---------------------------------------------------------------------------

/// One documentation page in `llms.txt`.
pub struct LlmsEntry {
    pub title: String,
    pub href: String,
    pub description: Option<String>,
}

/// The line for one page.
pub open spec fn llms_line(e: LlmsEntry) -> Seq<char> {
    match e.description {
        Some(d) => "- ["@ + e.title@ + "]("@ + e.href@ + "): "@ + d@ + "\n"@,
        None => "- ["@ + e.title@ + "]("@ + e.href@ + ")\n"@,
    }
}

/// The lines for a list of pages.
pub open spec fn llms_lines(es: Seq<LlmsEntry>) -> Seq<char>
    decreases es.len(),
{
    if es.len() == 0 {
        Seq::empty()
    } else {
        llms_lines(es.drop_last()) + llms_line(es.last())
    }
}

/// The fixed paragraph that explains the file.
pub open spec fn llms_intro() -> Seq<char> {
    "This file follows the [llms.txt convention](https://llmstxt.org/) so LLMs and agents can discover nessemble's documentation. Each link below points to a page of the mdBook manual.\n"@
}

/// The `llms.txt` body.
pub open spec fn llms_text(title: Seq<char>, description: Option<Seq<char>>, es: Seq<LlmsEntry>) -> Seq<char> {
    "# "@ + title + "\n"@ + "\n"@ + (match description {
        Some(d) => "> "@ + d + "\n"@ + "\n"@,
        None => Seq::empty(),
    }) + llms_intro() + "\n"@ + "## Documentation\n"@ + "\n"@ + llms_lines(es)
}

/// Render the `llms.txt` body from the book metadata and page entries.
pub fn render_llms_txt(title: &str, description: Option<&str>, entries: &[LlmsEntry]) -> (r: String)
    ensures
        r@ == llms_text(
            title@,
            match description {
                Some(d) => Some(d@),
                None => None,
            },
            entries@,
        ),
{
    let mut s = chars_of("# ");
    push_str(&mut s, title);
    push_str(&mut s, "\n");
    push_str(&mut s, "\n");
    match description {
        Some(d) => {
            push_str(&mut s, "> ");
            push_str(&mut s, d);
            push_str(&mut s, "\n");
            push_str(&mut s, "\n");
        },
        None => {},
    }
    push_str(
        &mut s,
        "This file follows the [llms.txt convention](https://llmstxt.org/) so LLMs and agents can discover nessemble's documentation. Each link below points to a page of the mdBook manual.\n",
    );
    push_str(&mut s, "\n");
    push_str(&mut s, "## Documentation\n");
    push_str(&mut s, "\n");
    let ghost head = s@;
    let mut i: usize = 0;
    assert(entries@.take(0) =~= Seq::<LlmsEntry>::empty());
    while i < entries.len()
        invariant
            i <= entries.len(),
            s@ == head + llms_lines(entries@.take(i as int)),
        decreases entries.len() - i,
    {
        assert(entries@.take(i + 1).drop_last() =~= entries@.take(i as int));
        let e = &entries[i];
        push_str(&mut s, "- [");
        push_str(&mut s, e.title.as_str());
        push_str(&mut s, "](");
        push_str(&mut s, e.href.as_str());
        match &e.description {
            Some(d) => {
                push_str(&mut s, "): ");
                push_str(&mut s, d.as_str());
                push_str(&mut s, "\n");
            },
            None => {
                push_str(&mut s, ")\n");
            },
        }
        i += 1;
    }
    assert(entries@.take(entries.len() as int) =~= entries@);
    string_of(&s)
}

} // verus!
