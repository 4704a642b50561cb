//! A small XML reader for pseudo-op scripts: elements, attributes, text and
//! entities, with no namespaces, no schema and no DTD processing. A
//! `<!DOCTYPE` is an error rather than something the reader expands.
//!
//! The grammar is stated as spec functions over the character sequence and a
//! position (`element`, `content`, `start_tag`, ...); each reads from a
//! position and gives back what it read and the position after it, or the
//! position and message of the first error. The executable reader is proved
//! to return exactly what they describe.

use std::sync::Arc;
use vstd::prelude::*;
use crate::text::{
    char_debug, char_from_u32, char_width, chars_eq, chars_of, debug_char, eq_ignore_ascii_case,
    find_at, find_from, is_alphabetic, is_alphanumeric, is_scalar, is_whitespace, is_ws,
    lemma_find_from, line_at, line_col, col_at, occurs_at, parse_unsigned, bounded_value,
    push_all, push_str, starts_with_at, str_eq, string_of, sub_chars, unicode_alphabetic,
    unicode_alphanumeric, utf8_len, utf8_width, ci_eq,
};

verus! {

// ---------------------------------------------------------------------------
// Trees
// ---------------------------------------------------------------------------

/// A parsed element. Cloning a node shares its data.
#[derive(Clone, Debug)]
pub struct XmlNode(pub Arc<XmlNodeData>);

/// The data of one element.
#[derive(Debug)]
pub struct XmlNodeData {
    pub name: String,
    /// Attributes in source order.
    pub attrs: Vec<(String, String)>,
    /// Child elements only; text is collected into `text`.
    pub children: Vec<XmlNode>,
    /// The element's direct text (entities decoded, CDATA kept literally),
    /// or `None` when there is none at all.
    pub text: Option<String>,
}

/// The value an element denotes.
pub ghost struct XmlTree {
    pub name: Seq<char>,
    pub attrs: Seq<(Seq<char>, Seq<char>)>,
    pub children: Seq<XmlTree>,
    pub text: Option<Seq<char>>,
}

/// The attributes as pairs of character sequences.
pub open spec fn attr_views(a: Seq<(String, String)>) -> Seq<(Seq<char>, Seq<char>)> {
    a.map_values(|p: (String, String)| (p.0@, p.1@))
}

/// The tree a node denotes.
pub open spec fn tree_of(n: XmlNode) -> XmlTree
    decreases n,
{
    XmlTree {
        name: n.0.name@,
        attrs: attr_views(n.0.attrs@),
        children: Seq::new(
            n.0.children.len() as nat,
            |i: int|
                if 0 <= i < n.0.children.len() {
                    tree_of(n.0.children@[i])
                } else {
                    XmlTree {
                        name: Seq::empty(),
                        attrs: Seq::empty(),
                        children: Seq::empty(),
                        text: None,
                    }
                },
        ),
        text: match n.0.text {
            Some(t) => Some(t@),
            None => None,
        },
    }
}

impl View for XmlNode {
    type V = XmlTree;

    open spec fn view(&self) -> XmlTree {
        tree_of(*self)
    }
}

/// The trees of a sequence of nodes.
pub open spec fn trees(v: Seq<XmlNode>) -> Seq<XmlTree> {
    v.map_values(|n: XmlNode| tree_of(n))
}

/// The first attribute value named `k`, searching from index `i`.
pub open spec fn attr_from(a: Seq<(Seq<char>, Seq<char>)>, k: Seq<char>, i: int) -> Option<
    Seq<char>,
>
    decreases a.len() - i,
{
    if i < 0 || i >= a.len() {
        None
    } else if a[i].0 == k {
        Some(a[i].1)
    } else {
        attr_from(a, k, i + 1)
    }
}

/// The first child named `k`, searching from index `i`.
pub open spec fn child_from(c: Seq<XmlTree>, k: Seq<char>, i: int) -> Option<int>
    decreases c.len() - i,
{
    if i < 0 || i >= c.len() {
        None
    } else if c[i].name == k {
        Some(i)
    } else {
        child_from(c, k, i + 1)
    }
}

/// The children named `k`, in order.
pub open spec fn named(c: Seq<XmlTree>, k: Seq<char>) -> Seq<XmlTree>
    decreases c.len(),
{
    if c.len() == 0 {
        Seq::empty()
    } else if c.last().name == k {
        named(c.drop_last(), k).push(c.last())
    } else {
        named(c.drop_last(), k)
    }
}

impl XmlNode {
    /// A second handle on this node.
    pub fn share(&self) -> (r: XmlNode)
        ensures
            r == *self,
    {
        XmlNode(crate::script::share(&self.0))
    }

    /// The element name.
    pub fn name(&self) -> (r: &str)
        ensures
            r@ == self@.name,
    {
        self.0.name.as_str()
    }

    /// The value of the first attribute named `name`.
    pub fn attr(&self, name: &str) -> (r: Option<&str>)
        ensures
            r matches Some(v) ==> attr_from(self@.attrs, name@, 0) == Some(v@),
            r is None ==> attr_from(self@.attrs, name@, 0) is None,
    {
        let attrs = &self.0.attrs;
        let mut i: usize = 0;
        while i < attrs.len()
            invariant
                i <= attrs.len(),
                attrs == &self.0.attrs,
                attr_from(self@.attrs, name@, 0) == attr_from(self@.attrs, name@, i as int),
            decreases attrs.len() - i,
        {
            if str_eq(attrs[i].0.as_str(), name) {
                return Some(attrs[i].1.as_str());
            }
            i += 1;
        }
        None
    }

    /// The attributes in source order.
    pub fn attrs(&self) -> (r: &[(String, String)])
        ensures
            attr_views(r@) == self@.attrs,
    {
        self.0.attrs.as_slice()
    }

    /// The child elements.
    pub fn children(&self) -> (r: &[XmlNode])
        ensures
            trees(r@) == self@.children,
    {
        let r = self.0.children.as_slice();
        assert(trees(r@) =~= self@.children);
        r
    }

    /// The direct text.
    pub fn text(&self) -> (r: Option<&str>)
        ensures
            r matches Some(t) ==> self@.text == Some(t@),
            r is None ==> self@.text is None,
    {
        match &self.0.text {
            Some(t) => Some(t.as_str()),
            None => None,
        }
    }

    /// The first child named `name`.
    pub fn find(&self, name: &str) -> (r: Option<XmlNode>)
        ensures
            r matches Some(n) ==> child_from(self@.children, name@, 0) matches Some(i)
                && n@ == self@.children[i],
            r is None ==> child_from(self@.children, name@, 0) is None,
    {
        let cs = &self.0.children;
        let mut i: usize = 0;
        while i < cs.len()
            invariant
                i <= cs.len(),
                cs == &self.0.children,
                child_from(self@.children, name@, 0) == child_from(self@.children, name@, i as int),
            decreases cs.len() - i,
        {
            assert(self@.children[i as int] == tree_of(cs@[i as int]));
            if str_eq(cs[i].0.name.as_str(), name) {
                return Some(cs[i].share());
            }
            i += 1;
        }
        None
    }

    /// Every child named `name`, in order.
    pub fn find_all(&self, name: &str) -> (r: Vec<XmlNode>)
        ensures
            trees(r@) == named(self@.children, name@),
    {
        let cs = &self.0.children;
        let mut out: Vec<XmlNode> = Vec::new();
        let mut i: usize = 0;
        while i < cs.len()
            invariant
                i <= cs.len(),
                cs == &self.0.children,
                trees(out@) == named(self@.children.take(i as int), name@),
            decreases cs.len() - i,
        {
            let ghost before = self@.children.take(i as int);
            assert(self@.children.take(i + 1).drop_last() =~= before);
            if str_eq(cs[i].0.name.as_str(), name) {
                let ghost prev = trees(out@);
                out.push(cs[i].share());
                assert(trees(out@) =~= prev.push(tree_of(cs@[i as int])));
            }
            i += 1;
        }
        assert(self@.children.take(cs.len() as int) =~= self@.children);
        out
    }
}

/// A parse failure: the line and column reached, and what went wrong.
#[derive(Debug, Clone, PartialEq, Eq)]
pub struct XmlError {
    pub line: u32,
    pub col: u32,
    pub message: String,
}

impl XmlError {
    /// `line:col: message`.
    pub fn describe(&self) -> (r: String)
        ensures
            r@ == crate::text::decimal(self.line as nat) + ":"@ + crate::text::decimal(
                self.col as nat,
            ) + ": "@ + self.message@,
    {
        let mut v: Vec<char> = Vec::new();
        crate::text::push_decimal(&mut v, self.line as u64);
        push_str(&mut v, ":");
        crate::text::push_decimal(&mut v, self.col as u64);
        push_str(&mut v, ": ");
        push_str(&mut v, self.message.as_str());
        string_of(&v)
    }
}

// ---------------------------------------------------------------------------
// The grammar
// ---------------------------------------------------------------------------

/// A failure: where it happened and its message.
pub type Fault = (int, Seq<char>);

/// The first position at or after `i` that is not white space.
pub open spec fn ws_end(s: Seq<char>, i: int) -> int
    decreases s.len() - i,
{
    if 0 <= i < s.len() && is_ws(s[i]) {
        ws_end(s, i + 1)
    } else {
        i
    }
}

/// `lit` at `i`, ignoring ASCII case.
pub open spec fn ci_at(s: Seq<char>, i: int, lit: Seq<char>) -> bool {
    0 <= i && i + lit.len() <= s.len() && ci_eq(s.subrange(i, i + lit.len()), lit)
}

/// The construct opened by `open` at `i` and closed by the first `close`
/// after it: its content and the position after `close`. Unterminated, it is
/// an error at `i`.
pub open spec fn delimited(s: Seq<char>, i: int, open: Seq<char>, close: Seq<char>) -> Result<
    (Seq<char>, int),
    Fault,
> {
    match find_from(s, close, i + open.len()) {
        Some(j) => Ok((s.subrange(i + open.len(), j), j + close.len())),
        None => Err((i, "unterminated "@ + open + " ... "@ + close)),
    }
}

/// Characters that may start a name.
pub open spec fn name_start(c: char) -> bool {
    unicode_alphabetic(c) || c == '_' || c == ':'
}

/// Characters that may continue a name.
pub open spec fn name_char(c: char) -> bool {
    unicode_alphanumeric(c) || c == '_' || c == ':' || c == '-' || c == '.'
}

/// The end of the run of name characters from `i`.
pub open spec fn name_end(s: Seq<char>, i: int) -> int
    decreases s.len() - i,
{
    if 0 <= i < s.len() && name_char(s[i]) {
        name_end(s, i + 1)
    } else {
        i
    }
}

/// A name at `i`.
pub open spec fn name_at(s: Seq<char>, i: int) -> Result<(Seq<char>, int), Fault> {
    if 0 <= i < s.len() {
        if name_start(s[i]) {
            let e = name_end(s, i + 1);
            Ok((s.subrange(i, e), e))
        } else {
            Err((i, "expected a name, found "@ + char_debug(s[i])))
        }
    } else {
        Err((i, "expected a name, found end of input"@))
    }
}

/// The entity name after the `&` at `start`, read from `j`: up to `;`, and
/// at most until it has reached 32 bytes.
pub open spec fn entity_scan(s: Seq<char>, start: int, j: int) -> Result<(Seq<char>, int), Fault>
    decreases s.len() - j,
{
    if 0 <= j < s.len() && s[j] == ';' {
        Ok((s.subrange(start + 1, j), j + 1))
    } else if 0 <= j < s.len() && utf8_len(s.subrange(start + 1, j)) < 32 {
        entity_scan(s, start, j + 1)
    } else {
        Err((start, "unterminated entity reference '&"@ + s.subrange(start + 1, j) + "'"@))
    }
}

/// The character a code stands for, if it is a Unicode scalar value.
pub open spec fn scalar_of(v: Option<int>) -> Option<char> {
    match v {
        Some(u) => if 0 <= u <= u32::MAX && is_scalar(u as u32) {
            Some((u as u32) as char)
        } else {
            None
        },
        None => None,
    }
}

/// The character an entity name stands for: one of the five predefined
/// entities, or a decimal (`#65`) or hexadecimal (`#x41`) character code.
pub open spec fn entity_char(name: Seq<char>) -> Option<char> {
    if name == seq!['a', 'm', 'p'] {
        Some('&')
    } else if name == seq!['l', 't'] {
        Some('<')
    } else if name == seq!['g', 't'] {
        Some('>')
    } else if name == seq!['q', 'u', 'o', 't'] {
        Some('"')
    } else if name == seq!['a', 'p', 'o', 's'] {
        Some('\'')
    } else if name.len() >= 2 && name[0] == '#' && (name[1] == 'x' || name[1] == 'X') {
        scalar_of(bounded_value(name.skip(2), 16, u32::MAX as int))
    } else if name.len() >= 1 && name[0] == '#' {
        scalar_of(bounded_value(name.skip(1), 10, u32::MAX as int))
    } else {
        None
    }
}

/// An entity reference at `i` (which holds `&`).
pub open spec fn entity_at(s: Seq<char>, i: int) -> Result<(char, int), Fault> {
    match entity_scan(s, i, i + 1) {
        Err(f) => Err(f),
        Ok((name, e)) => match entity_char(name) {
            Some(c) => Ok((c, e)),
            None => Err((i, "unknown entity '&"@ + name + ";'"@)),
        },
    }
}

/// Text from `i` up to the next `<` or the end, appended to `acc`, entities
/// decoded.
pub open spec fn text_from(s: Seq<char>, i: int, acc: Seq<char>) -> Result<(Seq<char>, int), Fault>
    decreases s.len() - i,
{
    if i < 0 || i >= s.len() || s[i] == '<' {
        Ok((acc, i))
    } else if s[i] == '&' {
        match entity_at(s, i) {
            Err(f) => Err(f),
            Ok((c, e)) => if i < e <= s.len() {
                text_from(s, e, acc.push(c))
            } else {
                Ok((acc, i))
            },
        }
    } else {
        text_from(s, i + 1, acc.push(s[i]))
    }
}

/// An attribute value from `i`, after the quote `quote` opened at `start`,
/// appended to `acc`, entities decoded.
pub open spec fn value_from(
    s: Seq<char>,
    start: int,
    i: int,
    quote: char,
    attr: Seq<char>,
    acc: Seq<char>,
) -> Result<(Seq<char>, int), Fault>
    decreases s.len() - i,
{
    if i < 0 || i >= s.len() {
        Err((start, "unterminated value for attribute '"@ + attr + "'"@))
    } else if s[i] == quote {
        Ok((acc, i + 1))
    } else if s[i] == '&' {
        match entity_at(s, i) {
            Err(f) => Err(f),
            Ok((c, e)) => if i < e <= s.len() {
                value_from(s, start, e, quote, attr, acc.push(c))
            } else {
                Ok((acc, i))
            },
        }
    } else if s[i] == '<' {
        Err((i, "'<' is not allowed in the value of attribute '"@ + attr + "'"@))
    } else {
        value_from(s, start, i + 1, quote, attr, acc.push(s[i]))
    }
}

/// An attribute `name = "value"` at `i`.
pub open spec fn attr_at(s: Seq<char>, i: int) -> Result<((Seq<char>, Seq<char>), int), Fault> {
    match name_at(s, i) {
        Err(f) => Err(f),
        Ok((name, e)) => {
            let j = ws_end(s, e);
            if !(j < s.len() && s[j] == '=') {
                Err((j, "expected '=' after attribute name '"@ + name + "'"@))
            } else {
                let k = ws_end(s, j + 1);
                if k >= s.len() {
                    Err(
                        (
                            k,
                            "expected a quoted value for attribute '"@ + name
                                + "', found end of input"@,
                        ),
                    )
                } else if s[k] == '"' || s[k] == '\'' {
                    match value_from(s, k, k + 1, s[k], name, Seq::empty()) {
                        Err(f) => Err(f),
                        Ok((v, e2)) => Ok(((name, v), e2)),
                    }
                } else {
                    Err(
                        (
                            k,
                            "expected a quoted value for attribute '"@ + name + "', found "@
                                + char_debug(s[k]),
                        ),
                    )
                }
            }
        },
    }
}

/// The rest of a start tag from `j` for the element `name`: its attributes
/// (appended to `attrs`), the position after the tag, and whether it closed
/// itself with `/>`.
pub open spec fn start_tag(
    s: Seq<char>,
    j: int,
    name: Seq<char>,
    attrs: Seq<(Seq<char>, Seq<char>)>,
) -> Result<(Seq<(Seq<char>, Seq<char>)>, int, bool), Fault>
    decreases s.len() - j,
{
    let k = ws_end(s, j);
    if k < 0 || k >= s.len() {
        Err((k, "unexpected end of input in start tag <"@ + name + ">"@))
    } else if s[k] == '/' {
        if k + 1 < s.len() && s[k + 1] == '>' {
            Ok((attrs, k + 2, true))
        } else {
            Err((k + 1, "expected '>' after '/'"@))
        }
    } else if s[k] == '>' {
        Ok((attrs, k + 1, false))
    } else if name_start(s[k]) {
        match attr_at(s, k) {
            Err(f) => Err(f),
            Ok((a, e)) => if j < e <= s.len() {
                start_tag(s, e, name, attrs.push(a))
            } else {
                Ok((attrs, k + 1, false))
            },
        }
    } else {
        Err(
            (
                k,
                "unexpected "@ + char_debug(s[k]) + " in start tag <"@ + name
                    + ">, expected an attribute, '/', or '>'"@,
            ),
        )
    }
}

/// The finished element.
pub open spec fn finished(
    name: Seq<char>,
    attrs: Seq<(Seq<char>, Seq<char>)>,
    children: Seq<XmlTree>,
    text: Seq<char>,
) -> XmlTree {
    XmlTree {
        name,
        attrs,
        children,
        text: if text.len() == 0 {
            None
        } else {
            Some(text)
        },
    }
}

/// The message for a `<!DOCTYPE`.
pub open spec fn doctype_message() -> Seq<char> {
    "<!DOCTYPE is not supported: no DTD processing, no external entities"@
}

/// An element at `i` (which holds `<`) and the position after it.
pub open spec fn element(s: Seq<char>, i: int) -> Result<(XmlTree, int), Fault>
    decreases s.len() - i, 0int,
{
    match name_at(s, i + 1) {
        Err(f) => Err(f),
        Ok((name, e)) => match start_tag(s, e, name, Seq::empty()) {
            Err(f) => Err(f),
            Ok((attrs, e2, closed)) => if closed {
                Ok((finished(name, attrs, Seq::empty(), Seq::empty()), e2))
            } else if 0 <= i < e2 <= s.len() {
                content(s, e2, name, attrs, Seq::empty(), Seq::empty())
            } else {
                Ok((finished(name, attrs, Seq::empty(), Seq::empty()), e2))
            },
        },
    }
}

/// The content of the element `name` from `j` up to and including its end
/// tag, with the children and text read so far.
pub open spec fn content(
    s: Seq<char>,
    j: int,
    name: Seq<char>,
    attrs: Seq<(Seq<char>, Seq<char>)>,
    children: Seq<XmlTree>,
    text: Seq<char>,
) -> Result<(XmlTree, int), Fault>
    decreases s.len() - j, 1int,
{
    if j < 0 || j > s.len() {
        Ok((finished(name, attrs, children, text), j))
    } else if occurs_at(s, "</"@, j) {
        match name_at(s, j + 2) {
            Err(f) => Err(f),
            Ok((end_name, e)) => {
                let k = ws_end(s, e);
                if !(k < s.len() && s[k] == '>') {
                    Err((k, "expected '>' closing </"@ + end_name))
                } else if end_name != name {
                    Err(
                        (
                            j,
                            "mismatched closing tag: expected </"@ + name + ">, found </"@
                                + end_name + ">"@,
                        ),
                    )
                } else {
                    Ok((finished(name, attrs, children, text), k + 1))
                }
            },
        }
    } else if occurs_at(s, "<!--"@, j) {
        match delimited(s, j, "<!--"@, "-->"@) {
            Err(f) => Err(f),
            Ok((_, e)) => if j < e <= s.len() {
                content(s, e, name, attrs, children, text)
            } else {
                Ok((finished(name, attrs, children, text), j))
            },
        }
    } else if occurs_at(s, "<![CDATA["@, j) {
        match delimited(s, j, "<![CDATA["@, "]]>"@) {
            Err(f) => Err(f),
            Ok((t, e)) => if j < e <= s.len() {
                content(s, e, name, attrs, children, text + t)
            } else {
                Ok((finished(name, attrs, children, text), j))
            },
        }
    } else if occurs_at(s, "<?"@, j) {
        match delimited(s, j, "<?"@, "?>"@) {
            Err(f) => Err(f),
            Ok((_, e)) => if j < e <= s.len() {
                content(s, e, name, attrs, children, text)
            } else {
                Ok((finished(name, attrs, children, text), j))
            },
        }
    } else if ci_at(s, j, "<!DOCTYPE"@) {
        Err((j, doctype_message()))
    } else if j < s.len() && s[j] == '<' {
        match element(s, j) {
            Err(f) => Err(f),
            Ok((child, e)) => if j < e <= s.len() {
                content(s, e, name, attrs, children.push(child), text)
            } else {
                Ok((finished(name, attrs, children, text), j))
            },
        }
    } else if j >= s.len() {
        Err((j, "unexpected end of input inside <"@ + name + ">"@))
    } else {
        match text_from(s, j, Seq::empty()) {
            Err(f) => Err(f),
            Ok((t, e)) => if j < e <= s.len() {
                content(s, e, name, attrs, children, text + t)
            } else {
                Ok((finished(name, attrs, children, text), j))
            },
        }
    }
}

/// White space, comments and processing instructions before the root, from
/// `i`; a `<!DOCTYPE` is an error.
pub open spec fn misc_end(s: Seq<char>, i: int) -> Result<int, Fault>
    decreases s.len() - i,
{
    let k = ws_end(s, i);
    if occurs_at(s, "<!--"@, k) {
        match delimited(s, k, "<!--"@, "-->"@) {
            Err(f) => Err(f),
            Ok((_, e)) => if 0 <= i < e <= s.len() {
                misc_end(s, e)
            } else {
                Ok(k)
            },
        }
    } else if occurs_at(s, "<?"@, k) {
        match delimited(s, k, "<?"@, "?>"@) {
            Err(f) => Err(f),
            Ok((_, e)) => if 0 <= i < e <= s.len() {
                misc_end(s, e)
            } else {
                Ok(k)
            },
        }
    } else if ci_at(s, k, "<!DOCTYPE"@) {
        Err((k, doctype_message()))
    } else {
        Ok(k)
    }
}

/// A whole document: what precedes the root, then the root element.
/// Whatever follows the root is not read.
pub open spec fn document(s: Seq<char>) -> Result<XmlTree, Fault> {
    match misc_end(s, 0) {
        Err(f) => Err(f),
        Ok(k) => if 0 <= k < s.len() && s[k] == '<' {
            match element(s, k) {
                Ok((t, _)) => Ok(t),
                Err(f) => Err(f),
            }
        } else if 0 <= k < s.len() {
            Err((k, "expected the root element, found "@ + char_debug(s[k])))
        } else {
            Err((k, "expected the root element, found end of input"@))
        },
    }
}

// ---------------------------------------------------------------------------
// The reader
// ---------------------------------------------------------------------------

/// A failure while reading: where, and the message.
struct Failure {
    at: usize,
    message: Vec<char>,
}

/// The spec value of a failure.
spec fn fault(f: Failure) -> Fault {
    (f.at as int, f.message@)
}

/// The end of the white space at `i`.
fn skip_ws(s: &Vec<char>, i: usize) -> (k: usize)
    requires
        i <= s.len(),
    ensures
        k == ws_end(s@, i as int),
        i <= k <= s.len(),
{
    let mut k = i;
    while k < s.len() && is_whitespace(s[k])
        invariant
            i <= k <= s.len(),
            ws_end(s@, i as int) == ws_end(s@, k as int),
        decreases s.len() - k,
    {
        k += 1;
    }
    k
}

/// Whether the literal `l` occurs at `i`.
fn lit(s: &Vec<char>, i: usize, l: &str) -> (r: bool)
    requires
        i <= s.len(),
    ensures
        r == occurs_at(s@, l@, i as int),
{
    let v = chars_of(l);
    starts_with_at(s, i, &v)
}

/// Whether the literal `l` occurs at `i`, ignoring ASCII case.
fn lit_ci(s: &Vec<char>, i: usize, l: &str) -> (r: bool)
    requires
        i <= s.len(),
    ensures
        r == ci_at(s@, i as int, l@),
{
    let v = chars_of(l);
    if v.len() > s.len() - i {
        return false;
    }
    let sub = sub_chars(s, i, i + v.len());
    eq_ignore_ascii_case(&sub, &v)
}

/// `a` followed by `b`.
fn msg2(a: &str, b: &[char]) -> (m: Vec<char>)
    ensures
        m@ == a@ + b@,
{
    let mut m = chars_of(a);
    push_all(&mut m, b);
    m
}

/// `a` followed by `b` and `c`.
fn msg3(a: &str, b: &[char], c: &str) -> (m: Vec<char>)
    ensures
        m@ == a@ + b@ + c@,
{
    let mut m = chars_of(a);
    push_all(&mut m, b);
    push_str(&mut m, c);
    m
}

/// `a`, `b`, `c`, `d` and `e` in turn.
fn msg5(a: &str, b: &[char], c: &str, d: &[char], e: &str) -> (m: Vec<char>)
    ensures
        m@ == a@ + b@ + c@ + d@ + e@,
{
    let mut m = msg3(a, b, c);
    push_all(&mut m, d);
    push_str(&mut m, e);
    m
}

/// The `Debug` rendering of `c` as characters.
fn debug_chars(c: char) -> (v: Vec<char>)
    ensures
        v@ == char_debug(c),
{
    let d = debug_char(c);
    chars_of(d.as_str())
}

/// The construct opened by `open` at `i` and closed by `close`.
fn read_delimited(s: &Vec<char>, i: usize, open: &str, close: &str) -> (r: Result<
    (Vec<char>, usize),
    Failure,
>)
    requires
        occurs_at(s@, open@, i as int),
        open@.len() > 0,
    ensures
        match r {
            Ok((v, e)) => delimited(s@, i as int, open@, close@) == Ok::<(Seq<char>, int), Fault>(
                (v@, e as int),
            ) && i < e <= s.len(),
            Err(f) => delimited(s@, i as int, open@, close@) == Err::<(Seq<char>, int), Fault>(
                fault(f),
            ) && f.at <= s.len(),
        },
{
    let o = chars_of(open);
    let c = chars_of(close);
    assert(i + o.len() <= s.len());
    let from = i + o.len();
    proof {
        lemma_find_from(s@, c@, from as int);
    }
    match find_at(s, &c, from) {
        Some(j) => Ok((sub_chars(s, from, j), j + c.len())),
        None => {
            let mut m = chars_of("unterminated ");
            push_all(&mut m, &o);
            push_str(&mut m, " ... ");
            push_all(&mut m, &c);
            Err(Failure { at: i, message: m })
        },
    }
}

/// Whether `c` may start a name.
fn is_name_start(c: char) -> (r: bool)
    ensures
        r == name_start(c),
{
    is_alphabetic(c) || c == '_' || c == ':'
}

/// Whether `c` may continue a name.
fn is_name_char(c: char) -> (r: bool)
    ensures
        r == name_char(c),
{
    is_alphanumeric(c) || c == '_' || c == ':' || c == '-' || c == '.'
}

/// A name at `i`.
fn parse_name(s: &Vec<char>, i: usize) -> (r: Result<(Vec<char>, usize), Failure>)
    requires
        i <= s.len(),
    ensures
        match r {
            Ok((v, e)) => name_at(s@, i as int) == Ok::<(Seq<char>, int), Fault>((v@, e as int))
                && i < e <= s.len(),
            Err(f) => name_at(s@, i as int) == Err::<(Seq<char>, int), Fault>(fault(f)) && f.at
                <= s.len(),
        },
{
    if i >= s.len() {
        return Err(Failure { at: i, message: chars_of("expected a name, found end of input") });
    }
    if !is_name_start(s[i]) {
        let d = debug_chars(s[i]);
        return Err(Failure { at: i, message: msg2("expected a name, found ", &d) });
    }
    let mut e = i + 1;
    while e < s.len() && is_name_char(s[e])
        invariant
            i < e <= s.len(),
            name_end(s@, i + 1) == name_end(s@, e as int),
        decreases s.len() - e,
    {
        e += 1;
    }
    Ok((sub_chars(s, i, e), e))
}

/// Whether `v` spells `lit`.
fn spells(v: &[char], lit: &[char]) -> (r: bool)
    ensures
        r == (v@ == lit@),
{
    chars_eq(v, lit)
}

/// The character an entity name stands for.
fn decode_entity(name: &Vec<char>) -> (r: Option<char>)
    ensures
        r == entity_char(name@),
{
    let amp = vec!['a', 'm', 'p'];
    let lt = vec!['l', 't'];
    let gt = vec!['g', 't'];
    let quot = vec!['q', 'u', 'o', 't'];
    let apos = vec!['a', 'p', 'o', 's'];
    assert(amp@ =~= seq!['a', 'm', 'p']);
    assert(lt@ =~= seq!['l', 't']);
    assert(gt@ =~= seq!['g', 't']);
    assert(quot@ =~= seq!['q', 'u', 'o', 't']);
    assert(apos@ =~= seq!['a', 'p', 'o', 's']);
    if spells(name, &amp) {
        return Some('&');
    } else if spells(name, &lt) {
        return Some('<');
    } else if spells(name, &gt) {
        return Some('>');
    } else if spells(name, &quot) {
        return Some('"');
    } else if spells(name, &apos) {
        return Some('\'');
    }
    if name.len() >= 2 && name[0] == '#' && (name[1] == 'x' || name[1] == 'X') {
        let digits = sub_chars(name, 2, name.len());
        assert(digits@ =~= name@.skip(2));
        code_char(&digits, 16)
    } else if name.len() >= 1 && name[0] == '#' {
        let digits = sub_chars(name, 1, name.len());
        assert(digits@ =~= name@.skip(1));
        code_char(&digits, 10)
    } else {
        None
    }
}

/// The character whose code `digits` spells in base `radix`.
fn code_char(digits: &Vec<char>, radix: u64) -> (r: Option<char>)
    requires
        radix == 10 || radix == 16,
    ensures
        r == scalar_of(bounded_value(digits@, radix as int, u32::MAX as int)),
{
    proof {
        let body = if digits@.len() > 0 && digits@[0] == '+' {
            digits@.skip(1)
        } else {
            digits@
        };
        crate::text::lemma_digits_value_nonneg(body, radix as int);
    }
    match parse_unsigned(digits, radix, 0xFFFF_FFFF) {
        Some(v) => char_from_u32(v as u32),
        None => None,
    }
}

/// An entity reference at `i`.
fn read_entity(s: &Vec<char>, i: usize) -> (r: Result<(char, usize), Failure>)
    requires
        i < s.len(),
        s@[i as int] == '&',
    ensures
        match r {
            Ok((c, e)) => entity_at(s@, i as int) == Ok::<(char, int), Fault>((c, e as int)) && i
                < e <= s.len(),
            Err(f) => entity_at(s@, i as int) == Err::<(char, int), Fault>(fault(f)) && f.at
                <= s.len(),
        },
{
    let mut j = i + 1;
    let mut bytes: usize = 0;
    assert(s@.subrange(i + 1, i + 1) =~= Seq::<char>::empty());
    loop
        invariant
            i < j <= s.len(),
            bytes <= 36,
            bytes == utf8_len(s@.subrange(i + 1, j as int)),
            entity_scan(s@, i as int, i + 1) == entity_scan(s@, i as int, j as int),
        decreases s.len() - j,
    {
        if j < s.len() && s[j] == ';' {
            let name = sub_chars(s, i + 1, j);
            return match decode_entity(&name) {
                Some(c) => Ok((c, j + 1)),
                None => Err(Failure { at: i, message: msg3("unknown entity '&", &name, ";'") }),
            };
        } else if j < s.len() && bytes < 32 {
            assert(s@.subrange(i + 1, j + 1).drop_last() =~= s@.subrange(i + 1, j as int));
            bytes = bytes + char_width(s[j]);
            j += 1;
        } else {
            let name = sub_chars(s, i + 1, j);
            return Err(
                Failure { at: i, message: msg3("unterminated entity reference '&", &name, "'") },
            );
        }
    }
}

/// Text from `i` up to the next `<`, entities decoded.
fn read_text(s: &Vec<char>, i: usize) -> (r: Result<(Vec<char>, usize), Failure>)
    requires
        i <= s.len(),
    ensures
        match r {
            Ok((v, e)) => text_from(s@, i as int, Seq::empty()) == Ok::<(Seq<char>, int), Fault>(
                (v@, e as int),
            ) && i <= e <= s.len() && (i < s.len() && s@[i as int] != '<' ==> i < e),
            Err(f) => text_from(s@, i as int, Seq::empty()) == Err::<(Seq<char>, int), Fault>(
                fault(f),
            ) && f.at <= s.len(),
        },
{
    let mut out: Vec<char> = Vec::new();
    let mut j = i;
    loop
        invariant
            i <= j <= s.len(),
            text_from(s@, i as int, Seq::empty()) == text_from(s@, j as int, out@),
        decreases s.len() - j,
    {
        if j >= s.len() || s[j] == '<' {
            return Ok((out, j));
        }
        if s[j] == '&' {
            match read_entity(s, j) {
                Err(f) => {
                    return Err(f);
                },
                Ok((c, e)) => {
                    out.push(c);
                    j = e;
                },
            }
        } else {
            out.push(s[j]);
            j += 1;
        }
    }
}

/// A quoted attribute value whose quote is at `k`.
fn read_attr_value(s: &Vec<char>, k: usize, attr: &Vec<char>) -> (r: Result<
    (Vec<char>, usize),
    Failure,
>)
    requires
        k < s.len(),
    ensures
        match r {
            Ok((v, e)) => value_from(s@, k as int, k + 1, s@[k as int], attr@, Seq::empty())
                == Ok::<(Seq<char>, int), Fault>((v@, e as int)) && k < e <= s.len(),
            Err(f) => value_from(s@, k as int, k + 1, s@[k as int], attr@, Seq::empty()) == Err::<
                (Seq<char>, int),
                Fault,
            >(fault(f)) && f.at <= s.len(),
        },
{
    let quote = s[k];
    let mut out: Vec<char> = Vec::new();
    let mut j = k + 1;
    loop
        invariant
            k < j <= s.len(),
            quote == s@[k as int],
            value_from(s@, k as int, k + 1, quote, attr@, Seq::empty()) == value_from(
                s@,
                k as int,
                j as int,
                quote,
                attr@,
                out@,
            ),
        decreases s.len() - j,
    {
        if j >= s.len() {
            return Err(
                Failure { at: k, message: msg3("unterminated value for attribute '", attr, "'") },
            );
        }
        let c = s[j];
        if c == quote {
            return Ok((out, j + 1));
        } else if c == '&' {
            match read_entity(s, j) {
                Err(f) => {
                    return Err(f);
                },
                Ok((d, e)) => {
                    out.push(d);
                    j = e;
                },
            }
        } else if c == '<' {
            return Err(
                Failure {
                    at: j,
                    message: msg3("'<' is not allowed in the value of attribute '", attr, "'"),
                },
            );
        } else {
            out.push(c);
            j += 1;
        }
    }
}

/// An attribute at `i`.
fn parse_attr(s: &Vec<char>, i: usize) -> (r: Result<((Vec<char>, Vec<char>), usize), Failure>)
    requires
        i <= s.len(),
    ensures
        match r {
            Ok((a, e)) => attr_at(s@, i as int) == Ok::<((Seq<char>, Seq<char>), int), Fault>(
                ((a.0@, a.1@), e as int),
            ) && i < e <= s.len(),
            Err(f) => attr_at(s@, i as int) == Err::<((Seq<char>, Seq<char>), int), Fault>(
                fault(f),
            ) && f.at <= s.len(),
        },
{
    let (name, e) = match parse_name(s, i) {
        Ok(x) => x,
        Err(f) => {
            return Err(f);
        },
    };
    let j = skip_ws(s, e);
    if !(j < s.len() && s[j] == '=') {
        return Err(
            Failure { at: j, message: msg3("expected '=' after attribute name '", &name, "'") },
        );
    }
    let k = skip_ws(s, j + 1);
    if k >= s.len() {
        return Err(
            Failure {
                at: k,
                message: msg3(
                    "expected a quoted value for attribute '",
                    &name,
                    "', found end of input",
                ),
            },
        );
    }
    if s[k] == '"' || s[k] == '\'' {
        match read_attr_value(s, k, &name) {
            Err(f) => Err(f),
            Ok((v, e2)) => Ok(((name, v), e2)),
        }
    } else {
        let d = debug_chars(s[k]);
        let mut m = msg3("expected a quoted value for attribute '", &name, "', found ");
        push_all(&mut m, &d);
        Err(Failure { at: k, message: m })
    }
}

/// The rest of the start tag of `name` from `j0`.
fn read_start_tag(s: &Vec<char>, j0: usize, name: &Vec<char>) -> (r: Result<
    (Vec<(String, String)>, usize, bool),
    Failure,
>)
    requires
        j0 <= s.len(),
    ensures
        match r {
            Ok((a, e, closed)) => start_tag(s@, j0 as int, name@, Seq::empty()) == Ok::<
                (Seq<(Seq<char>, Seq<char>)>, int, bool),
                Fault,
            >((attr_views(a@), e as int, closed)) && j0 < e <= s.len(),
            Err(f) => start_tag(s@, j0 as int, name@, Seq::empty()) == Err::<
                (Seq<(Seq<char>, Seq<char>)>, int, bool),
                Fault,
            >(fault(f)) && f.at <= s.len(),
        },
{
    let mut attrs: Vec<(String, String)> = Vec::new();
    let mut j = j0;
    assert(attr_views(attrs@) =~= Seq::empty());
    loop
        invariant
            j0 <= j <= s.len(),
            start_tag(s@, j0 as int, name@, Seq::empty()) == start_tag(
                s@,
                j as int,
                name@,
                attr_views(attrs@),
            ),
        decreases s.len() - j,
    {
        let k = skip_ws(s, j);
        if k >= s.len() {
            return Err(
                Failure { at: k, message: msg3("unexpected end of input in start tag <", name, ">") },
            );
        }
        let c = s[k];
        if c == '/' {
            if k + 1 < s.len() && s[k + 1] == '>' {
                return Ok((attrs, k + 2, true));
            } else {
                return Err(Failure { at: k + 1, message: chars_of("expected '>' after '/'") });
            }
        } else if c == '>' {
            return Ok((attrs, k + 1, false));
        } else if is_name_start(c) {
            match parse_attr(s, k) {
                Err(f) => {
                    return Err(f);
                },
                Ok((a, e)) => {
                    let ghost prev = attr_views(attrs@);
                    let n = string_of(&a.0);
                    let v = string_of(&a.1);
                    attrs.push((n, v));
                    assert(attr_views(attrs@) =~= prev.push((a.0@, a.1@)));
                    j = e;
                },
            }
        } else {
            let d = debug_chars(c);
            return Err(
                Failure {
                    at: k,
                    message: msg5(
                        "unexpected ",
                        &d,
                        " in start tag <",
                        name,
                        ">, expected an attribute, '/', or '>'",
                    ),
                },
            );
        }
    }
}

/// The node for a finished element.
fn make_node(name: &Vec<char>, attrs: Vec<(String, String)>, children: Vec<XmlNode>, text: Vec<
    char,
>) -> (n: XmlNode)
    ensures
        n@ == finished(name@, attr_views(attrs@), trees(children@), text@),
{
    let t = if text.len() == 0 {
        None
    } else {
        Some(string_of(&text))
    };
    let n = XmlNode(
        Arc::new(XmlNodeData { name: string_of(name), attrs: attrs, children: children, text: t }),
    );
    assert(n@.children =~= trees(children@));
    n
}

/// An element at `i`.
fn parse_element(s: &Vec<char>, i: usize) -> (r: Result<(XmlNode, usize), Failure>)
    requires
        i < s.len(),
        s@[i as int] == '<',
    ensures
        match r {
            Ok((n, e)) => element(s@, i as int) == Ok::<(XmlTree, int), Fault>((n@, e as int)) && i
                < e <= s.len(),
            Err(f) => element(s@, i as int) == Err::<(XmlTree, int), Fault>(fault(f)) && f.at
                <= s.len(),
        },
    decreases s.len() - i,
{
    let (name, e) = match parse_name(s, i + 1) {
        Ok(x) => x,
        Err(f) => {
            return Err(f);
        },
    };
    let (attrs, e2, closed) = match read_start_tag(s, e, &name) {
        Ok(x) => x,
        Err(f) => {
            return Err(f);
        },
    };
    if closed {
        let n = make_node(&name, attrs, Vec::new(), Vec::new());
        assert(trees(Seq::<XmlNode>::empty()) =~= Seq::<XmlTree>::empty());
        return Ok((n, e2));
    }
    let ghost gattrs = attr_views(attrs@);
    let mut children: Vec<XmlNode> = Vec::new();
    let mut text: Vec<char> = Vec::new();
    let mut j = e2;
    assert(trees(children@) =~= Seq::<XmlTree>::empty());
    loop
        invariant
            i < j <= s.len(),
            gattrs == attr_views(attrs@),
            element(s@, i as int) == content(s@, j as int, name@, gattrs, trees(children@), text@),
        decreases s.len() - j,
    {
        if lit(s, j, "</") {
            proof {
                reveal_strlit("</");
            }
            let (end_name, e) = match parse_name(s, j + 2) {
                Ok(x) => x,
                Err(f) => {
                    return Err(f);
                },
            };
            let k = skip_ws(s, e);
            if !(k < s.len() && s[k] == '>') {
                return Err(Failure { at: k, message: msg2("expected '>' closing </", &end_name) });
            }
            if !chars_eq(&end_name, &name) {
                return Err(
                    Failure {
                        at: j,
                        message: msg5(
                            "mismatched closing tag: expected </",
                            &name,
                            ">, found </",
                            &end_name,
                            ">",
                        ),
                    },
                );
            }
            return Ok((make_node(&name, attrs, children, text), k + 1));
        } else if lit(s, j, "<!--") {
            proof {
                reveal_strlit("<!--");
            }
            match read_delimited(s, j, "<!--", "-->") {
                Err(f) => {
                    return Err(f);
                },
                Ok((_, e)) => {
                    j = e;
                },
            }
        } else if lit(s, j, "<![CDATA[") {
            proof {
                reveal_strlit("<![CDATA[");
            }
            match read_delimited(s, j, "<![CDATA[", "]]>") {
                Err(f) => {
                    return Err(f);
                },
                Ok((t, e)) => {
                    push_all(&mut text, &t);
                    j = e;
                },
            }
        } else if lit(s, j, "<?") {
            proof {
                reveal_strlit("<?");
            }
            match read_delimited(s, j, "<?", "?>") {
                Err(f) => {
                    return Err(f);
                },
                Ok((_, e)) => {
                    j = e;
                },
            }
        } else if lit_ci(s, j, "<!DOCTYPE") {
            return Err(
                Failure {
                    at: j,
                    message: chars_of(
                        "<!DOCTYPE is not supported: no DTD processing, no external entities",
                    ),
                },
            );
        } else if j < s.len() && s[j] == '<' {
            match parse_element(s, j) {
                Err(f) => {
                    return Err(f);
                },
                Ok((child, e)) => {
                    let ghost prev = trees(children@);
                    children.push(child);
                    assert(trees(children@) =~= prev.push(child@));
                    j = e;
                },
            }
        } else if j >= s.len() {
            return Err(
                Failure { at: j, message: msg3("unexpected end of input inside <", &name, ">") },
            );
        } else {
            match read_text(s, j) {
                Err(f) => {
                    return Err(f);
                },
                Ok((t, e)) => {
                    push_all(&mut text, &t);
                    j = e;
                },
            }
        }
    }
}

/// White space, comments and processing instructions from `i`.
fn skip_misc(s: &Vec<char>, i: usize) -> (r: Result<usize, Failure>)
    requires
        i <= s.len(),
    ensures
        match r {
            Ok(k) => misc_end(s@, i as int) == Ok::<int, Fault>(k as int) && k <= s.len(),
            Err(f) => misc_end(s@, i as int) == Err::<int, Fault>(fault(f)) && f.at <= s.len(),
        },
{
    let mut j = i;
    loop
        invariant
            i <= j <= s.len(),
            misc_end(s@, i as int) == misc_end(s@, j as int),
        decreases s.len() - j,
    {
        let k = skip_ws(s, j);
        if lit(s, k, "<!--") {
            proof {
                reveal_strlit("<!--");
            }
            match read_delimited(s, k, "<!--", "-->") {
                Err(f) => {
                    return Err(f);
                },
                Ok((_, e)) => {
                    j = e;
                },
            }
        } else if lit(s, k, "<?") {
            proof {
                reveal_strlit("<?");
            }
            match read_delimited(s, k, "<?", "?>") {
                Err(f) => {
                    return Err(f);
                },
                Ok((_, e)) => {
                    j = e;
                },
            }
        } else if lit_ci(s, k, "<!DOCTYPE") {
            return Err(
                Failure {
                    at: k,
                    message: chars_of(
                        "<!DOCTYPE is not supported: no DTD processing, no external entities",
                    ),
                },
            );
        } else {
            return Ok(k);
        }
    }
}

/// The error for a failure in `s`.
fn to_error(s: &Vec<char>, f: Failure) -> (e: XmlError)
    requires
        f.at <= s.len(),
        s.len() < u32::MAX,
    ensures
        e.line == line_at(s@, f.at as int),
        e.col == col_at(s@, f.at as int),
        e.message@ == f.message@,
{
    let (line, col) = line_col(s, f.at);
    XmlError { line, col, message: string_of(&f.message) }
}

/// Parse `src` as one XML document and return its root element. A leading
/// byte-order mark is skipped. The error names the line and column of a
/// syntax error, an unterminated construct, a `<!DOCTYPE`, or an unknown
/// entity.
pub fn parse(src: &str) -> (r: Result<XmlNode, XmlError>)
    requires
        src@.len() < u32::MAX,
    ensures
        match document(without_bom(src@)) {
            Ok(t) => r matches Ok(n) && n@ == t,
            Err((p, m)) => r matches Err(e) && e.line == line_at(without_bom(src@), p) && e.col
                == col_at(without_bom(src@), p) && e.message@ == m,
        },
{
    let all = chars_of(src);
    let s = if all.len() > 0 && all[0] == '\u{feff}' {
        sub_chars(&all, 1, all.len())
    } else {
        all
    };
    assert(s@ =~= without_bom(src@));
    match skip_misc(&s, 0) {
        Err(f) => Err(to_error(&s, f)),
        Ok(k) => {
            if k < s.len() && s[k] == '<' {
                match parse_element(&s, k) {
                    Ok((n, _)) => Ok(n),
                    Err(f) => Err(to_error(&s, f)),
                }
            } else if k < s.len() {
                let d = debug_chars(s[k]);
                let m = msg2("expected the root element, found ", &d);
                Err(to_error(&s, Failure { at: k, message: m }))
            } else {
                let m = chars_of("expected the root element, found end of input");
                Err(to_error(&s, Failure { at: k, message: m }))
            }
        },
    }
}

/// The source without one leading byte-order mark.
pub open spec fn without_bom(s: Seq<char>) -> Seq<char> {
    if s.len() > 0 && s[0] == '\u{feff}' {
        s.skip(1)
    } else {
        s
    }
}

} // verus!
