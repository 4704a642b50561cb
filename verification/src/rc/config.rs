//! A resolved configuration for a set of inputs: the base formatting options,
//! the extensions a directory walk formats, the `.nessembleignore` globs, and
//! the per-glob overrides, all anchored at one root directory.
//!
//! Globs are matched against a file's `/`-separated path relative to the
//! root; working that path out (which reads the file system) is the caller's.

use vstd::prelude::*;
use crate::rc::{dir_of, dir_part, bare_ext, matches_path_glob, normalize_ext, path_glob};
use crate::rc::options::{overlay, FormatOptions, RcOptions};
use crate::text::{
    chars_of, extension_of, lines, lines_of, lower_seq, path_extension, push_str, str_eq,
    string_of, to_lower_vec, trim, trim_vec, vviews,
};

verus! {

/// One `overrides` entry: a glob and the options laid over matching files.
#[derive(Clone, Debug)]
pub struct RcOverride {
    pub files: String,
    pub options: RcOptions,
}

/// A `.nessemblerc` document, as read.
#[derive(Clone, Debug, Default)]
pub struct RcConfig {
    pub extensions: Option<Vec<String>>,
    pub overrides: Vec<RcOverride>,
    pub options: RcOptions,
}

/// The UTF-8 bytes of a text.
pub open spec fn utf8(s: Seq<char>) -> Seq<u8> {
    vstd::utf8::encode_utf8(s)
}

/// The options `base` becomes for a file at `rel` after the overrides from
/// the first `n` on, in order, each laid over when its glob matches.
pub open spec fn layered(base: FormatOptions, ovs: Seq<(Seq<char>, RcOptions)>, rel: Seq<char>, n: int) -> FormatOptions
    decreases n,
{
    if n <= 0 {
        base
    } else {
        let acc = layered(base, ovs, rel, n - 1);
        if path_glob(utf8(ovs[n - 1].0), utf8(rel)) {
            overlay(ovs[n - 1].1, acc).0
        } else {
            acc
        }
    }
}

/// The first override from `k` on whose options do not lay over `base`,
/// with its complaint.
pub open spec fn first_bad_override(ovs: Seq<RcOverride>, base: FormatOptions, k: int) -> Option<(int, Seq<char>)>
    decreases ovs.len() - k,
{
    if k < 0 || k >= ovs.len() {
        None
    } else {
        match overlay(ovs[k].options, base).1 {
            Some(m) => Some((k, m)),
            None => first_bad_override(ovs, base, k + 1),
        }
    }
}

/// The complaint about a configuration file: where, and what.
pub open spec fn config_message(rc: RcConfig, path: Seq<char>, defaults: FormatOptions) -> Option<Seq<char>> {
    match overlay(rc.options, defaults).1 {
        Some(m) => Some("in `"@ + path + "`: "@ + m),
        None => match first_bad_override(rc.overrides@, overlay(rc.options, defaults).0, 0) {
            Some((k, m)) => Some(
                "in `"@ + path + "` overrides for `"@ + rc.overrides@[k].files@ + "`: "@ + m,
            ),
            None => None,
        },
    }
}

/// The extensions a configuration formats: those it lists, normalized, or
/// `asm` when it lists none.
pub open spec fn configured_exts(e: Option<Vec<String>>) -> Seq<Seq<char>> {
    match e {
        Some(v) => v@.map_values(|x: String| bare_ext(x@)),
        None => seq!["asm"@],
    }
}

/// The globs of a `.nessembleignore`: its lines trimmed, leaving out blank
/// lines and `#` comments.
pub open spec fn ignore_lines(ls: Seq<Seq<char>>) -> Seq<Seq<char>>
    decreases ls.len(),
{
    if ls.len() == 0 {
        Seq::empty()
    } else {
        let t = trim(ls.last());
        let rest = ignore_lines(ls.drop_last());
        if t.len() == 0 || t[0] == '#' {
            rest
        } else {
            rest.push(t)
        }
    }
}

/// Parse the text of a `.nessembleignore` into its globs.
pub fn ignore_globs(text: &str) -> (r: Vec<String>)
    ensures
        r@.map_values(|s: String| s@) == ignore_lines(lines(text@)),
{
    let ls = lines_of(&chars_of(text));
    let ghost lv = vviews(ls@);
    let mut out: Vec<String> = Vec::new();
    let mut i: usize = 0;
    while i < ls.len()
        invariant
            i <= ls.len(),
            lv == vviews(ls@),
            lv == lines(text@),
            out@.map_values(|s: String| s@) == ignore_lines(lv.take(i as int)),
        decreases ls.len() - i,
    {
        let t = trim_vec(&ls[i]);
        let ghost before = out@.map_values(|s: String| s@);
        assert(lv.take(i + 1).drop_last() =~= lv.take(i as int));
        assert(lv.take(i + 1).last() == ls@[i as int]@);
        if !(t.len() == 0 || t[0] == '#') {
            out.push(string_of(&t));
            assert(out@.map_values(|s: String| s@) =~= before.push(t@));
        }
        i += 1;
    }
    assert(lv.take(ls.len() as int) =~= lv);
    out
}

/// A resolved configuration.
pub struct Config {
    base: FormatOptions,
    extensions: Vec<String>,
    ignore: Vec<String>,
    overrides: Vec<(String, RcOptions)>,
    root: String,
}

impl Config {
    /// The base formatting options.
    pub closed spec fn base_options(&self) -> FormatOptions {
        self.base
    }

    /// The extensions a directory walk formats, bare and lower-case.
    pub closed spec fn extension_list(&self) -> Seq<Seq<char>> {
        self.extensions@.map_values(|s: String| s@)
    }

    /// The `.nessembleignore` globs.
    pub closed spec fn ignore_list(&self) -> Seq<Seq<char>> {
        self.ignore@.map_values(|s: String| s@)
    }

    /// The overrides, in file order: each glob with its options.
    pub closed spec fn override_list(&self) -> Seq<(Seq<char>, RcOptions)> {
        self.overrides@.map_values(|e: (String, RcOptions)| (e.0@, e.1))
    }

    /// The directory globs are relative to.
    pub closed spec fn root_dir(&self) -> Seq<char> {
        self.root@
    }

    /// The configuration with no `.nessemblerc`: `defaults`, `.asm` files, no
    /// ignore globs or overrides, rooted at `root`.
    pub fn defaults(root: &str, defaults: FormatOptions) -> (r: Config)
        ensures
            r.base_options() == defaults,
            r.extension_list() == seq!["asm"@],
            r.ignore_list() == Seq::<Seq<char>>::empty(),
            r.override_list() == Seq::<(Seq<char>, RcOptions)>::empty(),
            r.root_dir() == root@,
    {
        let mut ext: Vec<String> = Vec::new();
        ext.push(string_of(&chars_of("asm")));
        let r = Config {
            base: defaults,
            extensions: ext,
            ignore: Vec::new(),
            overrides: Vec::new(),
            root: string_of(&chars_of(root)),
        };
        assert(r.extension_list() =~= seq!["asm"@]);
        assert(r.ignore_list() =~= Seq::<Seq<char>>::empty());
        assert(r.override_list() =~= Seq::<(Seq<char>, RcOptions)>::empty());
        r
    }

    /// The configuration a `.nessemblerc` at `path` describes: `defaults`
    /// with its options laid over, its overrides (each checked against those
    /// base options, so that resolving a file later cannot fail), its
    /// extensions, rooted at the file's directory. A bad value is reported
    /// with the file's path, and the override's glob when it sits in one.
    pub fn from_rc(rc: &RcConfig, path: &str, defaults: FormatOptions) -> (r: Result<Config, String>)
        ensures
            r is Err <==> config_message(*rc, path@, defaults) is Some,
            r matches Err(m) ==> config_message(*rc, path@, defaults) == Some(m@),
            r matches Ok(c) ==> {
                &&& c.base_options() == overlay(rc.options, defaults).0
                &&& c.extension_list() == configured_exts(rc.extensions)
                &&& c.ignore_list() == Seq::<Seq<char>>::empty()
                &&& c.override_list() == rc.overrides@.map_values(
                    |o: RcOverride| (o.files@, o.options),
                )
                &&& c.root_dir() == dir_part(path@)
            },
    {
        let mut base = defaults;
        match rc.options.apply(&mut base) {
            Ok(()) => {},
            Err(e) => {
                let mut m: Vec<char> = Vec::new();
                push_str(&mut m, "in `");
                push_str(&mut m, path);
                push_str(&mut m, "`: ");
                push_str(&mut m, e.as_str());
                assert(m@ =~= "in `"@ + path@ + "`: "@ + e@);
                return Err(string_of(&m));
            },
        }
        let ghost b = base;
        let mut overrides: Vec<(String, RcOptions)> = Vec::new();
        let mut k: usize = 0;
        while k < rc.overrides.len()
            invariant
                k <= rc.overrides.len(),
                b == overlay(rc.options, defaults).0,
                overlay(rc.options, defaults).1 is None,
                base == b,
                first_bad_override(rc.overrides@, b, 0) == first_bad_override(rc.overrides@, b, k as int),
                overrides@.map_values(|e: (String, RcOptions)| (e.0@, e.1)) == rc.overrides@.take(
                    k as int,
                ).map_values(|o: RcOverride| (o.files@, o.options)),
            decreases rc.overrides.len() - k,
        {
            let ov = &rc.overrides[k];
            let mut probe = base;
            match ov.options.apply(&mut probe) {
                Ok(()) => {},
                Err(e) => {
                    let mut m: Vec<char> = Vec::new();
                    push_str(&mut m, "in `");
                    push_str(&mut m, path);
                    push_str(&mut m, "` overrides for `");
                    push_str(&mut m, ov.files.as_str());
                    push_str(&mut m, "`: ");
                    push_str(&mut m, e.as_str());
                    assert(m@ =~= "in `"@ + path@ + "` overrides for `"@ + rc.overrides@[k as int].files@
                        + "`: "@ + e@);
                    return Err(string_of(&m));
                },
            }
            let ghost before = overrides@.map_values(|e: (String, RcOptions)| (e.0@, e.1));
            overrides.push((string_of(&chars_of(ov.files.as_str())), ov.options.clone_options()));
            assert(overrides@.map_values(|e: (String, RcOptions)| (e.0@, e.1)) =~= before.push(
                (ov.files@, ov.options),
            ));
            assert(rc.overrides@.take(k + 1) =~= rc.overrides@.take(k as int).push(rc.overrides@[k as int]));
            assert(rc.overrides@.take(k + 1).map_values(|o: RcOverride| (o.files@, o.options))
                =~= rc.overrides@.take(k as int).map_values(|o: RcOverride| (o.files@, o.options)).push(
                (ov.files@, ov.options),
            ));
            k += 1;
        }
        assert(rc.overrides@.take(rc.overrides.len() as int) =~= rc.overrides@);
        let mut extensions: Vec<String> = Vec::new();
        match &rc.extensions {
            Some(list) => {
                let mut j: usize = 0;
                while j < list.len()
                    invariant
                        j <= list.len(),
                        extensions@.map_values(|s: String| s@) == list@.take(j as int).map_values(
                            |x: String| bare_ext(x@),
                        ),
                    decreases list.len() - j,
                {
                    let ghost before = extensions@.map_values(|s: String| s@);
                    extensions.push(normalize_ext(list[j].as_str()));
                    assert(extensions@.map_values(|s: String| s@) =~= before.push(bare_ext(list@[j as int]@)));
                    assert(list@.take(j + 1).map_values(|x: String| bare_ext(x@)) =~= list@.take(
                        j as int,
                    ).map_values(|x: String| bare_ext(x@)).push(bare_ext(list@[j as int]@)));
                    j += 1;
                }
                assert(list@.take(list.len() as int) =~= list@);
            },
            None => {
                extensions.push(string_of(&chars_of("asm")));
                assert(extensions@.map_values(|s: String| s@) =~= seq!["asm"@]);
            },
        }
        let c = Config {
            base,
            extensions,
            ignore: Vec::new(),
            overrides,
            root: dir_of(path),
        };
        assert(c.ignore_list() =~= Seq::<Seq<char>>::empty());
        Ok(c)
    }

    /// Take the `.nessembleignore` at `path`, whose text is `text`: its globs
    /// replace the configured ones, and globs are then relative to its
    /// directory.
    pub fn use_ignore_file(&mut self, path: &str, text: &str)
        ensures
            final(self).base_options() == old(self).base_options(),
            final(self).extension_list() == old(self).extension_list(),
            final(self).override_list() == old(self).override_list(),
            final(self).ignore_list() == ignore_lines(lines(text@)),
            final(self).root_dir() == dir_part(path@),
    {
        self.ignore = ignore_globs(text);
        self.root = dir_of(path);
    }

    /// Whether a file's extension, lower-cased, is one a directory walk
    /// formats.
    pub fn has_formatted_ext(&self, file: &str) -> (r: bool)
        ensures
            r == match path_extension(file@) {
                Some(e) => self.extension_list().contains(lower_seq(e)),
                None => false,
            },
    {
        let ext = match extension_of(file) {
            Some(e) => e,
            None => return false,
        };
        let low = string_of(&to_lower_vec(&chars_of(ext.as_str())));
        let mut i: usize = 0;
        while i < self.extensions.len()
            invariant
                i <= self.extensions.len(),
                low@ == lower_seq(ext@),
                path_extension(file@) == Some(ext@),
                forall|k: int| 0 <= k < i ==> self.extension_list()[k] != low@,
            decreases self.extensions.len() - i,
        {
            if str_eq(self.extensions[i].as_str(), low.as_str()) {
                assert(self.extension_list()[i as int] == low@);
                return true;
            }
            i += 1;
        }
        false
    }

    /// Whether the file at `rel`, relative to the root, is excluded by an
    /// ignore glob.
    pub fn is_ignored(&self, rel: &str) -> (r: bool)
        ensures
            r == exists|k: int| 0 <= k < self.ignore_list().len() && path_glob(
                utf8(#[trigger] self.ignore_list()[k]),
                utf8(rel@),
            ),
    {
        let mut i: usize = 0;
        while i < self.ignore.len()
            invariant
                i <= self.ignore.len(),
                forall|k: int| 0 <= k < i ==> !path_glob(utf8(#[trigger] self.ignore_list()[k]), utf8(rel@)),
            decreases self.ignore.len() - i,
        {
            assert(self.ignore_list()[i as int] == self.ignore@[i as int]@);
            if matches_path_glob(self.ignore[i].as_str(), rel) {
                return true;
            }
            i += 1;
        }
        false
    }

    /// The effective formatting options for the file at `rel`, relative to
    /// the root: the base options with every matching override laid over, in
    /// order.
    pub fn options_for(&self, rel: &str) -> (r: FormatOptions)
        ensures
            r == layered(self.base_options(), self.override_list(), rel@, self.override_list().len() as int),
    {
        let mut opts = self.base;
        let mut i: usize = 0;
        while i < self.overrides.len()
            invariant
                i <= self.overrides.len(),
                opts == layered(self.base_options(), self.override_list(), rel@, i as int),
            decreases self.overrides.len() - i,
        {
            let (glob, ov) = (&self.overrides[i].0, &self.overrides[i].1);
            assert(self.override_list()[i as int] == (glob@, *ov));
            if matches_path_glob(glob.as_str(), rel) {
                let _ = ov.apply(&mut opts);
            }
            i += 1;
        }
        opts
    }
}

} // verus!
