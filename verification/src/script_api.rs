//! The host API catalog: every function, method, property and type a custom
//! pseudo-op script can reach, as data, with the lookups that editors and the
//! documentation use.

use vstd::prelude::*;
use crate::text::{chars_of, ci_eq, eq_ignore_ascii_case, push_str, str_eq, string_of};

verus! {

/// Which group of the scripting documentation an entry belongs to, in the
/// order the groups are presented.
#[derive(Debug, Clone, Copy, PartialEq, Eq, Structural, PartialOrd, Ord, Hash)]
pub enum Domain {
    /// The `custom` entry point and how a script returns what it emits.
    EntryPoint,
    /// Reading files, and how a script's paths resolve.
    Files,
    /// Decoding PNGs and walking their pixels, tiles, and cells.
    Images,
    /// Snapping shade values to palette indices.
    Palette,
    /// XML, JSON and CSV documents the host parses on the script's behalf.
    StructuredData,
    /// Bulk numeric decoding and the string/blob helpers around it.
    Text,
    /// Random values, for procedural and randomized data.
    Random,
}

/// The position of a domain in presentation order.
pub open spec fn domain_rank(d: Domain) -> int {
    match d {
        Domain::EntryPoint => 0,
        Domain::Files => 1,
        Domain::Images => 2,
        Domain::Palette => 3,
        Domain::StructuredData => 4,
        Domain::Text => 5,
        Domain::Random => 6,
    }
}

/// A group's heading.
pub open spec fn domain_title(d: Domain) -> &'static str {
    match d {
        Domain::EntryPoint => "Entry point and output",
        Domain::Files => "Files and paths",
        Domain::Images => "Images (PNG)",
        Domain::Palette => "Palette",
        Domain::StructuredData => "Structured data",
        Domain::Text => "Numbers, strings, and blobs",
        Domain::Random => "Randomness",
    }
}

/// A group's one line of orientation.
pub open spec fn domain_blurb(d: Domain) -> &'static str {
    match d {
        Domain::EntryPoint => "What every script defines, and the three ways it can answer with output.",
        Domain::Files => "Reading assets from disk. Relative paths resolve against the source file's \
             directory; `@/` resolves from the project root.",
        Domain::Images => "Decoding a PNG once, then reading it by pixel, by tile, or by matching whole \
             cells against a bank.",
        Domain::Palette => "Turning shade values into fixed-palette indices.",
        Domain::StructuredData => "The host parses the document; the script walks it. Rhai is fast enough to \
             orchestrate a parse and far too slow to be one.",
        Domain::Text => "Decoding delimited numbers in one native call, and the small string and blob \
             gaps Rhai's standard library leaves.",
        Domain::Random => "Procedural noise and randomized tables. A script that draws random values is \
             never cached, and never reproducible.",
    }
}

impl Domain {
    /// Every domain, in presentation order.
    pub fn all() -> (r: Vec<Domain>)
        ensures
            r@.len() == 7,
            forall|i: int| 0 <= i < 7 ==> domain_rank(#[trigger] r@[i]) == i,
    {
        vec![
            Domain::EntryPoint,
            Domain::Files,
            Domain::Images,
            Domain::Palette,
            Domain::StructuredData,
            Domain::Text,
            Domain::Random,
        ]
    }

    /// The group's heading.
    pub fn title(self) -> (r: &'static str)
        ensures
            r == domain_title(self),
    {
        match self {
            Domain::EntryPoint => "Entry point and output",
            Domain::Files => "Files and paths",
            Domain::Images => "Images (PNG)",
            Domain::Palette => "Palette",
            Domain::StructuredData => "Structured data",
            Domain::Text => "Numbers, strings, and blobs",
            Domain::Random => "Randomness",
        }
    }

    /// One line of orientation for the group.
    pub fn blurb(self) -> (r: &'static str)
        ensures
            r == domain_blurb(self),
    {
        match self {
            Domain::EntryPoint => "What every script defines, and the three ways it can answer with output.",
            Domain::Files => "Reading assets from disk. Relative paths resolve against the source file's \
                 directory; `@/` resolves from the project root.",
            Domain::Images => "Decoding a PNG once, then reading it by pixel, by tile, or by matching whole \
                 cells against a bank.",
            Domain::Palette => "Turning shade values into fixed-palette indices.",
            Domain::StructuredData => "The host parses the document; the script walks it. Rhai is fast enough to \
                 orchestrate a parse and far too slow to be one.",
            Domain::Text => "Decoding delimited numbers in one native call, and the small string and blob \
                 gaps Rhai's standard library leaves.",
            Domain::Random => "Procedural noise and randomized tables. A script that draws random values is \
                 never cached, and never reproducible.",
        }
    }
}

/// What an entry is, which decides how it is written.
#[derive(Debug, Clone, Copy, PartialEq, Eq, Structural, Hash)]
pub enum ApiKind {
    /// A free function: `decode_png_file(path)`.
    Function,
    /// A method on a value: `img.tile(col, row, w, h)`.
    Method,
    /// A property read off a value: `img.width`.
    Property,
    /// An opaque handle type: `image`, `xml_node`.
    Type,
}

/// Who registers an entry.
#[derive(Debug, Clone, Copy, PartialEq, Eq, Hash)]
pub enum Origin {
    /// Registered by the scripting engine itself.
    Host,
    /// Provided by a Rhai package the engine installs wholesale.
    Package(&'static str),
    /// Defined by the script: the `custom` entry point.
    Script,
}

/// When an entry exists at all.
#[derive(Debug, Clone, Copy, PartialEq, Eq, Hash)]
pub enum Availability {
    /// Present in every build.
    Always,
    /// Present only when the scripting host is built with this feature.
    Feature(&'static str),
}

/// The note for an availability.
pub open spec fn availability_note(a: Availability) -> Option<Seq<char>> {
    match a {
        Availability::Always => None,
        Availability::Feature(f) => if f@ == "fs"@ {
            Some("needs `fs` (absent in the WebAssembly build)"@)
        } else if f@ == "rand"@ {
            Some("needs `rand` (absent in the WebAssembly build)"@)
        } else {
            Some("feature-gated"@)
        },
    }
}

impl Availability {
    /// The feature this entry needs, or `None` when it is always present.
    pub fn feature(self) -> (r: Option<&'static str>)
        ensures
            r == (match self {
                Availability::Always => None::<&'static str>,
                Availability::Feature(f) => Some(f),
            }),
    {
        match self {
            Availability::Always => None,
            Availability::Feature(f) => Some(f),
        }
    }

    /// A short note for a docs column or a completion item's detail, or
    /// `None` when there is nothing to say.
    pub fn note(self) -> (r: Option<&'static str>)
        ensures
            r matches Some(n) ==> availability_note(self) == Some(n@),
            r is None ==> availability_note(self) is None,
    {
        match self {
            Availability::Always => None,
            Availability::Feature(f) => {
                if str_eq(f, "fs") {
                    Some("needs `fs` (absent in the WebAssembly build)")
                } else if str_eq(f, "rand") {
                    Some("needs `rand` (absent in the WebAssembly build)")
                } else {
                    Some("feature-gated")
                }
            },
        }
    }
}

/// One callable thing a script can reach.
#[derive(Debug, Clone, Copy, PartialEq, Eq)]
pub struct ScriptApi {
    /// The registration name: a method's entry is `tile`, not `img.tile`.
    pub name: &'static str,
    /// How it is written at a call site, receiver and all; optional trailing
    /// arguments are bracketed.
    pub signature: &'static str,
    /// One line, lower-case, with no trailing period.
    pub summary: &'static str,
    /// Which group documents it.
    pub domain: Domain,
    /// Function, method, property, or type.
    pub kind: ApiKind,
    /// Who registers it.
    pub origin: Origin,
    /// Which builds have it.
    pub availability: Availability,
    /// The documentation anchor that explains it, without the leading `#`.
    pub anchor: &'static str,
}

/// Base URL of the published documentation.
pub const DOCS_BASE_URL: &'static str = "https://kevinselwyn.github.io/nessemble-rs/docs/";

impl ScriptApi {
    /// The entry's documentation URL.
    pub fn docs_url(&self) -> (r: String)
        ensures
            r@ == DOCS_BASE_URL@ + "extending.html#"@ + self.anchor@,
    {
        let mut v = chars_of(DOCS_BASE_URL);
        push_str(&mut v, "extending.html#");
        push_str(&mut v, self.anchor);
        string_of(&v)
    }
}

/// The number of catalog entries.
pub const CATALOG_LEN: usize = 50;

/// Entry `i` of the catalog, for `i` below `CATALOG_LEN`.
#[verifier::opaque]
pub open spec fn catalog_entry(i: int) -> ScriptApi {
    if i == 0 {
        ScriptApi {
            name: "custom",
            signature: "fn custom(ints, texts)",
            summary: "the entry point every script defines: the directive's integer and string \
                  arguments, returning the bytes to emit",
            domain: Domain::EntryPoint,
            kind: ApiKind::Function,
            origin: Origin::Script,
            availability: Availability::Always,
            anchor: "writing-a-script",
        }
    } else if i == 1 {
        ScriptApi {
            name: "emit_source",
            signature: "emit_source(text)",
            summary: "return `text` as assembly source for the assembler to expand at the call site, \
                  rather than as bytes",
            domain: Domain::EntryPoint,
            kind: ApiKind::Function,
            origin: Origin::Host,
            availability: Availability::Always,
            anchor: "emitting-assembly-source",
        }
    } else if i == 2 {
        ScriptApi {
            name: "open_file",
            signature: "open_file(path[, mode])",
            summary: "open a file — `\"r\"` to read, no mode to read and write, creating or \
                  truncating it",
            domain: Domain::Files,
            kind: ApiKind::Function,
            origin: Origin::Package("rhai-fs"),
            availability: Availability::Feature("fs"),
            anchor: "filesystem-access",
        }
    } else if i == 3 {
        ScriptApi {
            name: "read_blob",
            signature: "file.read_blob([n])",
            summary: "read the whole file, or `n` bytes, as a blob",
            domain: Domain::Files,
            kind: ApiKind::Method,
            origin: Origin::Package("rhai-fs"),
            availability: Availability::Feature("fs"),
            anchor: "filesystem-access",
        }
    } else if i == 4 {
        ScriptApi {
            name: "read_string",
            signature: "file.read_string([n])",
            summary: "read the whole file, or `n` bytes, as a string",
            domain: Domain::Files,
            kind: ApiKind::Method,
            origin: Origin::Package("rhai-fs"),
            availability: Availability::Feature("fs"),
            anchor: "filesystem-access",
        }
    } else if i == 5 {
        ScriptApi {
            name: "write",
            signature: "file.write(data)",
            summary: "write a blob or string to the file, returning the byte count",
            domain: Domain::Files,
            kind: ApiKind::Method,
            origin: Origin::Package("rhai-fs"),
            availability: Availability::Feature("fs"),
            anchor: "filesystem-access",
        }
    } else if i == 6 {
        ScriptApi {
            name: "seek",
            signature: "file.seek(pos)",
            summary: "move the file's read/write cursor",
            domain: Domain::Files,
            kind: ApiKind::Method,
            origin: Origin::Package("rhai-fs"),
            availability: Availability::Feature("fs"),
            anchor: "filesystem-access",
        }
    } else if i == 7 {
        ScriptApi {
            name: "read_blob",
            signature: "read_blob(path)",
            summary: "read a whole file as a blob in one call",
            domain: Domain::Files,
            kind: ApiKind::Function,
            origin: Origin::Host,
            availability: Availability::Feature("fs"),
            anchor: "filesystem-access",
        }
    } else if i == 8 {
        ScriptApi {
            name: "decode_png",
            signature: "decode_png(blob)",
            summary: "decode PNG bytes into an image handle",
            domain: Domain::Images,
            kind: ApiKind::Function,
            origin: Origin::Host,
            availability: Availability::Always,
            anchor: "decoding-pngs",
        }
    } else if i == 9 {
        ScriptApi {
            name: "decode_png_file",
            signature: "decode_png_file(path)",
            summary: "read and decode a PNG in one call",
            domain: Domain::Images,
            kind: ApiKind::Function,
            origin: Origin::Host,
            availability: Availability::Feature("fs"),
            anchor: "decoding-pngs",
        }
    } else if i == 10 {
        ScriptApi {
            name: "image",
            signature: "image",
            summary: "a decoded image; a shared handle, so passing it around copies nothing",
            domain: Domain::Images,
            kind: ApiKind::Type,
            origin: Origin::Host,
            availability: Availability::Always,
            anchor: "decoding-pngs",
        }
    } else if i == 11 {
        ScriptApi {
            name: "width",
            signature: "img.width",
            summary: "the image width in pixels",
            domain: Domain::Images,
            kind: ApiKind::Property,
            origin: Origin::Host,
            availability: Availability::Always,
            anchor: "decoding-pngs",
        }
    } else if i == 12 {
        ScriptApi {
            name: "height",
            signature: "img.height",
            summary: "the image height in pixels",
            domain: Domain::Images,
            kind: ApiKind::Property,
            origin: Origin::Host,
            availability: Availability::Always,
            anchor: "decoding-pngs",
        }
    } else if i == 13 {
        ScriptApi {
            name: "pixels",
            signature: "img.pixels",
            summary: "every channel as a flat `R, G, B, A` array, row-major — built fresh on each \
                  read, so prefer the accessors",
            domain: Domain::Images,
            kind: ApiKind::Property,
            origin: Origin::Host,
            availability: Availability::Always,
            anchor: "decoding-pngs",
        }
    } else if i == 14 {
        ScriptApi {
            name: "r",
            signature: "img.r(x, y)",
            summary: "the red channel of a pixel — its shade, for the grayscale images scripts use",
            domain: Domain::Images,
            kind: ApiKind::Method,
            origin: Origin::Host,
            availability: Availability::Always,
            anchor: "pixel-accessors",
        }
    } else if i == 15 {
        ScriptApi {
            name: "pixel",
            signature: "img.pixel(x, y)",
            summary: "a whole pixel as `[r, g, b, a]`",
            domain: Domain::Images,
            kind: ApiKind::Method,
            origin: Origin::Host,
            availability: Availability::Always,
            anchor: "pixel-accessors",
        }
    } else if i == 16 {
        ScriptApi {
            name: "tile",
            signature: "img.tile(col, row, w, h)",
            summary: "a `w`×`h` block's red channels, row-major, at grid position `(col, row)`",
            domain: Domain::Images,
            kind: ApiKind::Method,
            origin: Origin::Host,
            availability: Availability::Always,
            anchor: "pixel-accessors",
        }
    } else if i == 17 {
        ScriptApi {
            name: "find_cell",
            signature: "bank.find_cell(src, col, row, w, h)",
            summary: "the index of the bank cell drawing the same thing as that cell of `src`, or \
                  `-1`",
            domain: Domain::Images,
            kind: ApiKind::Method,
            origin: Origin::Host,
            availability: Availability::Always,
            anchor: "cell-matching",
        }
    } else if i == 18 {
        ScriptApi {
            name: "cell_equals",
            signature: "bank.cell_equals(index, src, col, row, w, h)",
            summary: "whether bank cell `index` draws that cell of `src`",
            domain: Domain::Images,
            kind: ApiKind::Method,
            origin: Origin::Host,
            availability: Availability::Always,
            anchor: "cell-matching",
        }
    } else if i == 19 {
        ScriptApi {
            name: "nearest_cell",
            signature: "bank.nearest_cell(src, col, row, w, h)",
            summary: "the closest bank cell by summed shade difference — never `-1`",
            domain: Domain::Images,
            kind: ApiKind::Method,
            origin: Origin::Host,
            availability: Availability::Always,
            anchor: "cell-matching",
        }
    } else if i == 20 {
        ScriptApi {
            name: "quantize",
            signature: "quantize(value, thresholds)",
            summary: "snap a value — or a whole array of them — to a palette index by counting the \
                  ascending `thresholds` it reaches",
            domain: Domain::Palette,
            kind: ApiKind::Function,
            origin: Origin::Host,
            availability: Availability::Always,
            anchor: "palette-quantization",
        }
    } else if i == 21 {
        ScriptApi {
            name: "nes_shade",
            signature: "nes_shade(value)",
            summary: "the NES four-shade case of `quantize` (thresholds `[43, 128, 213]`), returning \
                  `0`–`3`; also takes an array",
            domain: Domain::Palette,
            kind: ApiKind::Function,
            origin: Origin::Host,
            availability: Availability::Always,
            anchor: "palette-quantization",
        }
    } else if i == 22 {
        ScriptApi {
            name: "parse_xml",
            signature: "parse_xml(source)",
            summary: "parse an XML document held in a string, returning its root element",
            domain: Domain::StructuredData,
            kind: ApiKind::Function,
            origin: Origin::Host,
            availability: Availability::Always,
            anchor: "xml",
        }
    } else if i == 23 {
        ScriptApi {
            name: "parse_xml_file",
            signature: "parse_xml_file(path)",
            summary: "read and parse an XML document in one call",
            domain: Domain::StructuredData,
            kind: ApiKind::Function,
            origin: Origin::Host,
            availability: Availability::Feature("fs"),
            anchor: "xml",
        }
    } else if i == 24 {
        ScriptApi {
            name: "xml_node",
            signature: "xml_node",
            summary: "a parsed XML element; a shared handle, like an image",
            domain: Domain::StructuredData,
            kind: ApiKind::Type,
            origin: Origin::Host,
            availability: Availability::Always,
            anchor: "xml",
        }
    } else if i == 25 {
        ScriptApi {
            name: "name",
            signature: "node.name",
            summary: "the element's name, verbatim",
            domain: Domain::StructuredData,
            kind: ApiKind::Property,
            origin: Origin::Host,
            availability: Availability::Always,
            anchor: "xml",
        }
    } else if i == 26 {
        ScriptApi {
            name: "attrs",
            signature: "node.attrs",
            summary: "every attribute as a name → value map, sorted by name rather than document \
                  order",
            domain: Domain::StructuredData,
            kind: ApiKind::Property,
            origin: Origin::Host,
            availability: Availability::Always,
            anchor: "xml",
        }
    } else if i == 27 {
        ScriptApi {
            name: "attr",
            signature: "node.attr(name)",
            summary: "one attribute's value, or `()` when it is not set",
            domain: Domain::StructuredData,
            kind: ApiKind::Method,
            origin: Origin::Host,
            availability: Availability::Always,
            anchor: "xml",
        }
    } else if i == 28 {
        ScriptApi {
            name: "children",
            signature: "node.children",
            summary: "the child elements, as an array — text is not a child",
            domain: Domain::StructuredData,
            kind: ApiKind::Property,
            origin: Origin::Host,
            availability: Availability::Always,
            anchor: "xml",
        }
    } else if i == 29 {
        ScriptApi {
            name: "text",
            signature: "node.text",
            summary: "the element's own text with entities decoded, or `()` when it has none",
            domain: Domain::StructuredData,
            kind: ApiKind::Property,
            origin: Origin::Host,
            availability: Availability::Always,
            anchor: "xml",
        }
    } else if i == 30 {
        ScriptApi {
            name: "find",
            signature: "node.find(name)",
            summary: "the first child element with that name, or `()`",
            domain: Domain::StructuredData,
            kind: ApiKind::Method,
            origin: Origin::Host,
            availability: Availability::Always,
            anchor: "xml",
        }
    } else if i == 31 {
        ScriptApi {
            name: "find_all",
            signature: "node.find_all(name)",
            summary: "every child element with that name, as an array",
            domain: Domain::StructuredData,
            kind: ApiKind::Method,
            origin: Origin::Host,
            availability: Availability::Always,
            anchor: "xml",
        }
    } else if i == 32 {
        ScriptApi {
            name: "parse_json",
            signature: "parse_json(source)",
            summary: "parse a JSON document held in a string into native maps, arrays, and scalars",
            domain: Domain::StructuredData,
            kind: ApiKind::Function,
            origin: Origin::Host,
            availability: Availability::Always,
            anchor: "json",
        }
    } else if i == 33 {
        ScriptApi {
            name: "parse_json_file",
            signature: "parse_json_file(path)",
            summary: "read and parse a JSON document in one call",
            domain: Domain::StructuredData,
            kind: ApiKind::Function,
            origin: Origin::Host,
            availability: Availability::Feature("fs"),
            anchor: "json",
        }
    } else if i == 34 {
        ScriptApi {
            name: "parse_csv",
            signature: "parse_csv(text[, options])",
            summary: "parse a CSV/TSV document held in a string, returning it as a table",
            domain: Domain::StructuredData,
            kind: ApiKind::Function,
            origin: Origin::Host,
            availability: Availability::Always,
            anchor: "csv",
        }
    } else if i == 35 {
        ScriptApi {
            name: "parse_csv_file",
            signature: "parse_csv_file(path[, options])",
            summary: "read and parse a CSV/TSV document in one call",
            domain: Domain::StructuredData,
            kind: ApiKind::Function,
            origin: Origin::Host,
            availability: Availability::Feature("fs"),
            anchor: "csv",
        }
    } else if i == 36 {
        ScriptApi {
            name: "csv_table",
            signature: "csv_table",
            summary: "a parsed CSV/TSV document; a shared handle, like an image",
            domain: Domain::StructuredData,
            kind: ApiKind::Type,
            origin: Origin::Host,
            availability: Availability::Always,
            anchor: "csv",
        }
    } else if i == 37 {
        ScriptApi {
            name: "csv_row",
            signature: "csv_row",
            summary: "one data row of a csv_table, indexable by column name (row[\"x\"]) or \
                  position (row[0])",
            domain: Domain::StructuredData,
            kind: ApiKind::Type,
            origin: Origin::Host,
            availability: Availability::Always,
            anchor: "csv",
        }
    } else if i == 38 {
        ScriptApi {
            name: "headers",
            signature: "table.headers()",
            summary: "the column names, in file order",
            domain: Domain::StructuredData,
            kind: ApiKind::Method,
            origin: Origin::Host,
            availability: Availability::Always,
            anchor: "csv",
        }
    } else if i == 39 {
        ScriptApi {
            name: "rows",
            signature: "table.rows()",
            summary: "every data row, each indexable by column name or position",
            domain: Domain::StructuredData,
            kind: ApiKind::Method,
            origin: Origin::Host,
            availability: Availability::Always,
            anchor: "csv",
        }
    } else if i == 40 {
        ScriptApi {
            name: "len",
            signature: "table.len()",
            summary: "the row count",
            domain: Domain::StructuredData,
            kind: ApiKind::Method,
            origin: Origin::Host,
            availability: Availability::Always,
            anchor: "csv",
        }
    } else if i == 41 {
        ScriptApi {
            name: "parse_int_list",
            signature: "parse_int_list(text, delim[, radix])",
            summary: "decode a whole delimited column of integers in one native call, skipping empty \
                  fields",
            domain: Domain::Text,
            kind: ApiKind::Function,
            origin: Origin::Host,
            availability: Availability::Always,
            anchor: "bulk-numeric-decoding",
        }
    } else if i == 42 {
        ScriptApi {
            name: "to_char",
            signature: "to_char(value)",
            summary: "a one-character string for a Unicode scalar, for building strings out of bytes",
            domain: Domain::Text,
            kind: ApiKind::Function,
            origin: Origin::Host,
            availability: Availability::Always,
            anchor: "string-and-hex-helpers",
        }
    } else if i == 43 {
        ScriptApi {
            name: "trimmed",
            signature: "s.trimmed()",
            summary: "a trimmed copy of a string — the non-mutating form of `trim()`, which returns \
                  `()`",
            domain: Domain::Text,
            kind: ApiKind::Method,
            origin: Origin::Host,
            availability: Availability::Always,
            anchor: "string-and-hex-helpers",
        }
    } else if i == 44 {
        ScriptApi {
            name: "format_hex",
            signature: "format_hex(value, width)",
            summary: "assembly's own hex spelling: `$`-prefixed and zero-padded to `width`",
            domain: Domain::Text,
            kind: ApiKind::Function,
            origin: Origin::Host,
            availability: Availability::Always,
            anchor: "string-and-hex-helpers",
        }
    } else if i == 45 {
        ScriptApi {
            name: "rand",
            signature: "rand([min, max])",
            summary: "a random integer, or one in the inclusive range `min..=max`",
            domain: Domain::Random,
            kind: ApiKind::Function,
            origin: Origin::Package("rhai-rand"),
            availability: Availability::Feature("rand"),
            anchor: "random-numbers",
        }
    } else if i == 46 {
        ScriptApi {
            name: "rand_float",
            signature: "rand_float()",
            summary: "a random float in `0.0..1.0`",
            domain: Domain::Random,
            kind: ApiKind::Function,
            origin: Origin::Package("rhai-rand"),
            availability: Availability::Feature("rand"),
            anchor: "random-numbers",
        }
    } else if i == 47 {
        ScriptApi {
            name: "rand_bool",
            signature: "rand_bool([p])",
            summary: "a random `true`/`false`, or `true` with probability `p`",
            domain: Domain::Random,
            kind: ApiKind::Function,
            origin: Origin::Package("rhai-rand"),
            availability: Availability::Feature("rand"),
            anchor: "random-numbers",
        }
    } else if i == 48 {
        ScriptApi {
            name: "shuffle",
            signature: "array.shuffle()",
            summary: "shuffle an array in place",
            domain: Domain::Random,
            kind: ApiKind::Method,
            origin: Origin::Package("rhai-rand"),
            availability: Availability::Feature("rand"),
            anchor: "random-numbers",
        }
    } else {
        ScriptApi {
            name: "sample",
            signature: "array.sample([n])",
            summary: "one random element, or `n` of them",
            domain: Domain::Random,
            kind: ApiKind::Method,
            origin: Origin::Package("rhai-rand"),
            availability: Availability::Feature("rand"),
            anchor: "random-numbers",
        }
    }
}

/// Entry `i` of the catalog.
#[verifier::rlimit(50)]
pub(crate) fn entry(i: usize) -> (e: ScriptApi)
    requires
        i < CATALOG_LEN,
    ensures
        e == catalog_entry(i as int),
{
    proof {
        reveal(catalog_entry);
    }
    if i == 0 {
        ScriptApi {
            name: "custom",
            signature: "fn custom(ints, texts)",
            summary: "the entry point every script defines: the directive's integer and string \
                  arguments, returning the bytes to emit",
            domain: Domain::EntryPoint,
            kind: ApiKind::Function,
            origin: Origin::Script,
            availability: Availability::Always,
            anchor: "writing-a-script",
        }
    } else if i == 1 {
        ScriptApi {
            name: "emit_source",
            signature: "emit_source(text)",
            summary: "return `text` as assembly source for the assembler to expand at the call site, \
                  rather than as bytes",
            domain: Domain::EntryPoint,
            kind: ApiKind::Function,
            origin: Origin::Host,
            availability: Availability::Always,
            anchor: "emitting-assembly-source",
        }
    } else if i == 2 {
        ScriptApi {
            name: "open_file",
            signature: "open_file(path[, mode])",
            summary: "open a file — `\"r\"` to read, no mode to read and write, creating or \
                  truncating it",
            domain: Domain::Files,
            kind: ApiKind::Function,
            origin: Origin::Package("rhai-fs"),
            availability: Availability::Feature("fs"),
            anchor: "filesystem-access",
        }
    } else if i == 3 {
        ScriptApi {
            name: "read_blob",
            signature: "file.read_blob([n])",
            summary: "read the whole file, or `n` bytes, as a blob",
            domain: Domain::Files,
            kind: ApiKind::Method,
            origin: Origin::Package("rhai-fs"),
            availability: Availability::Feature("fs"),
            anchor: "filesystem-access",
        }
    } else if i == 4 {
        ScriptApi {
            name: "read_string",
            signature: "file.read_string([n])",
            summary: "read the whole file, or `n` bytes, as a string",
            domain: Domain::Files,
            kind: ApiKind::Method,
            origin: Origin::Package("rhai-fs"),
            availability: Availability::Feature("fs"),
            anchor: "filesystem-access",
        }
    } else if i == 5 {
        ScriptApi {
            name: "write",
            signature: "file.write(data)",
            summary: "write a blob or string to the file, returning the byte count",
            domain: Domain::Files,
            kind: ApiKind::Method,
            origin: Origin::Package("rhai-fs"),
            availability: Availability::Feature("fs"),
            anchor: "filesystem-access",
        }
    } else if i == 6 {
        ScriptApi {
            name: "seek",
            signature: "file.seek(pos)",
            summary: "move the file's read/write cursor",
            domain: Domain::Files,
            kind: ApiKind::Method,
            origin: Origin::Package("rhai-fs"),
            availability: Availability::Feature("fs"),
            anchor: "filesystem-access",
        }
    } else if i == 7 {
        ScriptApi {
            name: "read_blob",
            signature: "read_blob(path)",
            summary: "read a whole file as a blob in one call",
            domain: Domain::Files,
            kind: ApiKind::Function,
            origin: Origin::Host,
            availability: Availability::Feature("fs"),
            anchor: "filesystem-access",
        }
    } else if i == 8 {
        ScriptApi {
            name: "decode_png",
            signature: "decode_png(blob)",
            summary: "decode PNG bytes into an image handle",
            domain: Domain::Images,
            kind: ApiKind::Function,
            origin: Origin::Host,
            availability: Availability::Always,
            anchor: "decoding-pngs",
        }
    } else if i == 9 {
        ScriptApi {
            name: "decode_png_file",
            signature: "decode_png_file(path)",
            summary: "read and decode a PNG in one call",
            domain: Domain::Images,
            kind: ApiKind::Function,
            origin: Origin::Host,
            availability: Availability::Feature("fs"),
            anchor: "decoding-pngs",
        }
    } else if i == 10 {
        ScriptApi {
            name: "image",
            signature: "image",
            summary: "a decoded image; a shared handle, so passing it around copies nothing",
            domain: Domain::Images,
            kind: ApiKind::Type,
            origin: Origin::Host,
            availability: Availability::Always,
            anchor: "decoding-pngs",
        }
    } else if i == 11 {
        ScriptApi {
            name: "width",
            signature: "img.width",
            summary: "the image width in pixels",
            domain: Domain::Images,
            kind: ApiKind::Property,
            origin: Origin::Host,
            availability: Availability::Always,
            anchor: "decoding-pngs",
        }
    } else if i == 12 {
        ScriptApi {
            name: "height",
            signature: "img.height",
            summary: "the image height in pixels",
            domain: Domain::Images,
            kind: ApiKind::Property,
            origin: Origin::Host,
            availability: Availability::Always,
            anchor: "decoding-pngs",
        }
    } else if i == 13 {
        ScriptApi {
            name: "pixels",
            signature: "img.pixels",
            summary: "every channel as a flat `R, G, B, A` array, row-major — built fresh on each \
                  read, so prefer the accessors",
            domain: Domain::Images,
            kind: ApiKind::Property,
            origin: Origin::Host,
            availability: Availability::Always,
            anchor: "decoding-pngs",
        }
    } else if i == 14 {
        ScriptApi {
            name: "r",
            signature: "img.r(x, y)",
            summary: "the red channel of a pixel — its shade, for the grayscale images scripts use",
            domain: Domain::Images,
            kind: ApiKind::Method,
            origin: Origin::Host,
            availability: Availability::Always,
            anchor: "pixel-accessors",
        }
    } else if i == 15 {
        ScriptApi {
            name: "pixel",
            signature: "img.pixel(x, y)",
            summary: "a whole pixel as `[r, g, b, a]`",
            domain: Domain::Images,
            kind: ApiKind::Method,
            origin: Origin::Host,
            availability: Availability::Always,
            anchor: "pixel-accessors",
        }
    } else if i == 16 {
        ScriptApi {
            name: "tile",
            signature: "img.tile(col, row, w, h)",
            summary: "a `w`×`h` block's red channels, row-major, at grid position `(col, row)`",
            domain: Domain::Images,
            kind: ApiKind::Method,
            origin: Origin::Host,
            availability: Availability::Always,
            anchor: "pixel-accessors",
        }
    } else if i == 17 {
        ScriptApi {
            name: "find_cell",
            signature: "bank.find_cell(src, col, row, w, h)",
            summary: "the index of the bank cell drawing the same thing as that cell of `src`, or \
                  `-1`",
            domain: Domain::Images,
            kind: ApiKind::Method,
            origin: Origin::Host,
            availability: Availability::Always,
            anchor: "cell-matching",
        }
    } else if i == 18 {
        ScriptApi {
            name: "cell_equals",
            signature: "bank.cell_equals(index, src, col, row, w, h)",
            summary: "whether bank cell `index` draws that cell of `src`",
            domain: Domain::Images,
            kind: ApiKind::Method,
            origin: Origin::Host,
            availability: Availability::Always,
            anchor: "cell-matching",
        }
    } else if i == 19 {
        ScriptApi {
            name: "nearest_cell",
            signature: "bank.nearest_cell(src, col, row, w, h)",
            summary: "the closest bank cell by summed shade difference — never `-1`",
            domain: Domain::Images,
            kind: ApiKind::Method,
            origin: Origin::Host,
            availability: Availability::Always,
            anchor: "cell-matching",
        }
    } else if i == 20 {
        ScriptApi {
            name: "quantize",
            signature: "quantize(value, thresholds)",
            summary: "snap a value — or a whole array of them — to a palette index by counting the \
                  ascending `thresholds` it reaches",
            domain: Domain::Palette,
            kind: ApiKind::Function,
            origin: Origin::Host,
            availability: Availability::Always,
            anchor: "palette-quantization",
        }
    } else if i == 21 {
        ScriptApi {
            name: "nes_shade",
            signature: "nes_shade(value)",
            summary: "the NES four-shade case of `quantize` (thresholds `[43, 128, 213]`), returning \
                  `0`–`3`; also takes an array",
            domain: Domain::Palette,
            kind: ApiKind::Function,
            origin: Origin::Host,
            availability: Availability::Always,
            anchor: "palette-quantization",
        }
    } else if i == 22 {
        ScriptApi {
            name: "parse_xml",
            signature: "parse_xml(source)",
            summary: "parse an XML document held in a string, returning its root element",
            domain: Domain::StructuredData,
            kind: ApiKind::Function,
            origin: Origin::Host,
            availability: Availability::Always,
            anchor: "xml",
        }
    } else if i == 23 {
        ScriptApi {
            name: "parse_xml_file",
            signature: "parse_xml_file(path)",
            summary: "read and parse an XML document in one call",
            domain: Domain::StructuredData,
            kind: ApiKind::Function,
            origin: Origin::Host,
            availability: Availability::Feature("fs"),
            anchor: "xml",
        }
    } else if i == 24 {
        ScriptApi {
            name: "xml_node",
            signature: "xml_node",
            summary: "a parsed XML element; a shared handle, like an image",
            domain: Domain::StructuredData,
            kind: ApiKind::Type,
            origin: Origin::Host,
            availability: Availability::Always,
            anchor: "xml",
        }
    } else if i == 25 {
        ScriptApi {
            name: "name",
            signature: "node.name",
            summary: "the element's name, verbatim",
            domain: Domain::StructuredData,
            kind: ApiKind::Property,
            origin: Origin::Host,
            availability: Availability::Always,
            anchor: "xml",
        }
    } else if i == 26 {
        ScriptApi {
            name: "attrs",
            signature: "node.attrs",
            summary: "every attribute as a name → value map, sorted by name rather than document \
                  order",
            domain: Domain::StructuredData,
            kind: ApiKind::Property,
            origin: Origin::Host,
            availability: Availability::Always,
            anchor: "xml",
        }
    } else if i == 27 {
        ScriptApi {
            name: "attr",
            signature: "node.attr(name)",
            summary: "one attribute's value, or `()` when it is not set",
            domain: Domain::StructuredData,
            kind: ApiKind::Method,
            origin: Origin::Host,
            availability: Availability::Always,
            anchor: "xml",
        }
    } else if i == 28 {
        ScriptApi {
            name: "children",
            signature: "node.children",
            summary: "the child elements, as an array — text is not a child",
            domain: Domain::StructuredData,
            kind: ApiKind::Property,
            origin: Origin::Host,
            availability: Availability::Always,
            anchor: "xml",
        }
    } else if i == 29 {
        ScriptApi {
            name: "text",
            signature: "node.text",
            summary: "the element's own text with entities decoded, or `()` when it has none",
            domain: Domain::StructuredData,
            kind: ApiKind::Property,
            origin: Origin::Host,
            availability: Availability::Always,
            anchor: "xml",
        }
    } else if i == 30 {
        ScriptApi {
            name: "find",
            signature: "node.find(name)",
            summary: "the first child element with that name, or `()`",
            domain: Domain::StructuredData,
            kind: ApiKind::Method,
            origin: Origin::Host,
            availability: Availability::Always,
            anchor: "xml",
        }
    } else if i == 31 {
        ScriptApi {
            name: "find_all",
            signature: "node.find_all(name)",
            summary: "every child element with that name, as an array",
            domain: Domain::StructuredData,
            kind: ApiKind::Method,
            origin: Origin::Host,
            availability: Availability::Always,
            anchor: "xml",
        }
    } else if i == 32 {
        ScriptApi {
            name: "parse_json",
            signature: "parse_json(source)",
            summary: "parse a JSON document held in a string into native maps, arrays, and scalars",
            domain: Domain::StructuredData,
            kind: ApiKind::Function,
            origin: Origin::Host,
            availability: Availability::Always,
            anchor: "json",
        }
    } else if i == 33 {
        ScriptApi {
            name: "parse_json_file",
            signature: "parse_json_file(path)",
            summary: "read and parse a JSON document in one call",
            domain: Domain::StructuredData,
            kind: ApiKind::Function,
            origin: Origin::Host,
            availability: Availability::Feature("fs"),
            anchor: "json",
        }
    } else if i == 34 {
        ScriptApi {
            name: "parse_csv",
            signature: "parse_csv(text[, options])",
            summary: "parse a CSV/TSV document held in a string, returning it as a table",
            domain: Domain::StructuredData,
            kind: ApiKind::Function,
            origin: Origin::Host,
            availability: Availability::Always,
            anchor: "csv",
        }
    } else if i == 35 {
        ScriptApi {
            name: "parse_csv_file",
            signature: "parse_csv_file(path[, options])",
            summary: "read and parse a CSV/TSV document in one call",
            domain: Domain::StructuredData,
            kind: ApiKind::Function,
            origin: Origin::Host,
            availability: Availability::Feature("fs"),
            anchor: "csv",
        }
    } else if i == 36 {
        ScriptApi {
            name: "csv_table",
            signature: "csv_table",
            summary: "a parsed CSV/TSV document; a shared handle, like an image",
            domain: Domain::StructuredData,
            kind: ApiKind::Type,
            origin: Origin::Host,
            availability: Availability::Always,
            anchor: "csv",
        }
    } else if i == 37 {
        ScriptApi {
            name: "csv_row",
            signature: "csv_row",
            summary: "one data row of a csv_table, indexable by column name (row[\"x\"]) or \
                  position (row[0])",
            domain: Domain::StructuredData,
            kind: ApiKind::Type,
            origin: Origin::Host,
            availability: Availability::Always,
            anchor: "csv",
        }
    } else if i == 38 {
        ScriptApi {
            name: "headers",
            signature: "table.headers()",
            summary: "the column names, in file order",
            domain: Domain::StructuredData,
            kind: ApiKind::Method,
            origin: Origin::Host,
            availability: Availability::Always,
            anchor: "csv",
        }
    } else if i == 39 {
        ScriptApi {
            name: "rows",
            signature: "table.rows()",
            summary: "every data row, each indexable by column name or position",
            domain: Domain::StructuredData,
            kind: ApiKind::Method,
            origin: Origin::Host,
            availability: Availability::Always,
            anchor: "csv",
        }
    } else if i == 40 {
        ScriptApi {
            name: "len",
            signature: "table.len()",
            summary: "the row count",
            domain: Domain::StructuredData,
            kind: ApiKind::Method,
            origin: Origin::Host,
            availability: Availability::Always,
            anchor: "csv",
        }
    } else if i == 41 {
        ScriptApi {
            name: "parse_int_list",
            signature: "parse_int_list(text, delim[, radix])",
            summary: "decode a whole delimited column of integers in one native call, skipping empty \
                  fields",
            domain: Domain::Text,
            kind: ApiKind::Function,
            origin: Origin::Host,
            availability: Availability::Always,
            anchor: "bulk-numeric-decoding",
        }
    } else if i == 42 {
        ScriptApi {
            name: "to_char",
            signature: "to_char(value)",
            summary: "a one-character string for a Unicode scalar, for building strings out of bytes",
            domain: Domain::Text,
            kind: ApiKind::Function,
            origin: Origin::Host,
            availability: Availability::Always,
            anchor: "string-and-hex-helpers",
        }
    } else if i == 43 {
        ScriptApi {
            name: "trimmed",
            signature: "s.trimmed()",
            summary: "a trimmed copy of a string — the non-mutating form of `trim()`, which returns \
                  `()`",
            domain: Domain::Text,
            kind: ApiKind::Method,
            origin: Origin::Host,
            availability: Availability::Always,
            anchor: "string-and-hex-helpers",
        }
    } else if i == 44 {
        ScriptApi {
            name: "format_hex",
            signature: "format_hex(value, width)",
            summary: "assembly's own hex spelling: `$`-prefixed and zero-padded to `width`",
            domain: Domain::Text,
            kind: ApiKind::Function,
            origin: Origin::Host,
            availability: Availability::Always,
            anchor: "string-and-hex-helpers",
        }
    } else if i == 45 {
        ScriptApi {
            name: "rand",
            signature: "rand([min, max])",
            summary: "a random integer, or one in the inclusive range `min..=max`",
            domain: Domain::Random,
            kind: ApiKind::Function,
            origin: Origin::Package("rhai-rand"),
            availability: Availability::Feature("rand"),
            anchor: "random-numbers",
        }
    } else if i == 46 {
        ScriptApi {
            name: "rand_float",
            signature: "rand_float()",
            summary: "a random float in `0.0..1.0`",
            domain: Domain::Random,
            kind: ApiKind::Function,
            origin: Origin::Package("rhai-rand"),
            availability: Availability::Feature("rand"),
            anchor: "random-numbers",
        }
    } else if i == 47 {
        ScriptApi {
            name: "rand_bool",
            signature: "rand_bool([p])",
            summary: "a random `true`/`false`, or `true` with probability `p`",
            domain: Domain::Random,
            kind: ApiKind::Function,
            origin: Origin::Package("rhai-rand"),
            availability: Availability::Feature("rand"),
            anchor: "random-numbers",
        }
    } else if i == 48 {
        ScriptApi {
            name: "shuffle",
            signature: "array.shuffle()",
            summary: "shuffle an array in place",
            domain: Domain::Random,
            kind: ApiKind::Method,
            origin: Origin::Package("rhai-rand"),
            availability: Availability::Feature("rand"),
            anchor: "random-numbers",
        }
    } else {
        ScriptApi {
            name: "sample",
            signature: "array.sample([n])",
            summary: "one random element, or `n` of them",
            domain: Domain::Random,
            kind: ApiKind::Method,
            origin: Origin::Package("rhai-rand"),
            availability: Availability::Feature("rand"),
            anchor: "random-numbers",
        }
    }
}

/// The whole catalog, ordered by domain and, within a domain, in the order
/// the documentation introduces the entries.
pub open spec fn catalog() -> Seq<ScriptApi> {
    Seq::new(CATALOG_LEN as nat, |i: int| catalog_entry(i))
}

/// Every entry, in catalog order.
pub fn script_api() -> (r: Vec<ScriptApi>)
    ensures
        r@ == catalog(),
{
    let mut v: Vec<ScriptApi> = Vec::new();
    let mut i: usize = 0;
    while i < CATALOG_LEN
        invariant
            i <= CATALOG_LEN,
            v@ == catalog().take(i as int),
        decreases CATALOG_LEN - i,
    {
        v.push(entry(i));
        assert(v@ =~= catalog().take(i + 1));
        i += 1;
    }
    assert(catalog().take(CATALOG_LEN as int) =~= catalog());
    v
}

/// The entries of `s` in `domain`, in order.
pub open spec fn of_domain(s: Seq<ScriptApi>, domain: Domain) -> Seq<ScriptApi>
    decreases s.len(),
{
    if s.len() == 0 {
        Seq::empty()
    } else if s.last().domain == domain {
        of_domain(s.drop_last(), domain).push(s.last())
    } else {
        of_domain(s.drop_last(), domain)
    }
}

/// The entries of `s` named `name` (exactly, or ignoring ASCII case), in
/// order.
pub open spec fn named(s: Seq<ScriptApi>, name: Seq<char>, ignore_case: bool) -> Seq<ScriptApi>
    decreases s.len(),
{
    if s.len() == 0 {
        Seq::empty()
    } else if (if ignore_case {
        ci_eq(s.last().name@, name)
    } else {
        s.last().name@ == name
    }) {
        named(s.drop_last(), name, ignore_case).push(s.last())
    } else {
        named(s.drop_last(), name, ignore_case)
    }
}

/// Every entry in `domain`, in catalog order.
pub fn in_domain(domain: Domain) -> (r: Vec<ScriptApi>)
    ensures
        r@ == of_domain(catalog(), domain),
{
    let mut v: Vec<ScriptApi> = Vec::new();
    let mut i: usize = 0;
    while i < CATALOG_LEN
        invariant
            i <= CATALOG_LEN,
            v@ == of_domain(catalog().take(i as int), domain),
        decreases CATALOG_LEN - i,
    {
        let e = entry(i);
        assert(catalog().take(i + 1).drop_last() =~= catalog().take(i as int));
        if e.domain == domain {
            v.push(e);
        }
        i += 1;
    }
    assert(catalog().take(CATALOG_LEN as int) =~= catalog());
    v
}

/// The entries named `name`, in catalog order.
fn lookup_by(name: &str, ignore_case: bool) -> (r: Vec<ScriptApi>)
    ensures
        r@ == named(catalog(), name@, ignore_case),
{
    let wanted = chars_of(name);
    let mut v: Vec<ScriptApi> = Vec::new();
    let mut i: usize = 0;
    while i < CATALOG_LEN
        invariant
            i <= CATALOG_LEN,
            wanted@ == name@,
            v@ == named(catalog().take(i as int), name@, ignore_case),
        decreases CATALOG_LEN - i,
    {
        let e = entry(i);
        assert(catalog().take(i + 1).drop_last() =~= catalog().take(i as int));
        let hit = if ignore_case {
            let n = chars_of(e.name);
            eq_ignore_ascii_case(&n, &wanted)
        } else {
            str_eq(e.name, name)
        };
        if hit {
            v.push(e);
        }
        i += 1;
    }
    assert(catalog().take(CATALOG_LEN as int) =~= catalog());
    v
}

/// Every entry named `name`, in catalog order. A name can be both a free
/// function and a method.
pub fn lookup(name: &str) -> (r: Vec<ScriptApi>)
    ensures
        r@ == named(catalog(), name@, false),
{
    lookup_by(name, false)
}

/// Every entry whose name matches `name` ignoring ASCII case.
pub fn lookup_ignore_case(name: &str) -> (r: Vec<ScriptApi>)
    ensures
        r@ == named(catalog(), name@, true),
{
    lookup_by(name, true)
}

/// The catalog is grouped by domain, in presentation order: an entry never
/// belongs to an earlier group than the one before it.
pub proof fn lemma_catalog_grouped(i: int, j: int)
    requires
        0 <= i <= j < CATALOG_LEN,
    ensures
        domain_rank(catalog()[i].domain) <= domain_rank(catalog()[j].domain),
    decreases j - i,
{
    if i < j {
        lemma_catalog_grouped(i, j - 1);
        assert(domain_rank(catalog_entry(j - 1).domain) <= domain_rank(catalog_entry(j).domain))
            by {
            reveal(catalog_entry);
        }
    }
}

/// The domain presented at position `k`.
pub open spec fn domain_at(k: int) -> Domain {
    if k <= 0 {
        Domain::EntryPoint
    } else if k == 1 {
        Domain::Files
    } else if k == 2 {
        Domain::Images
    } else if k == 3 {
        Domain::Palette
    } else if k == 4 {
        Domain::StructuredData
    } else if k == 5 {
        Domain::Text
    } else {
        Domain::Random
    }
}

/// The entries of `s` of the first `n` domains in presentation order, one
/// domain after another.
pub open spec fn by_domains(s: Seq<ScriptApi>, n: int) -> Seq<ScriptApi>
    decreases n,
{
    if n <= 0 {
        Seq::empty()
    } else {
        by_domains(s, n - 1) + of_domain(s, domain_at(n - 1))
    }
}

/// A domain is the one presented at its rank.
proof fn lemma_domain_at_rank(d: Domain, k: int)
    requires
        0 <= k < 7,
    ensures
        0 <= domain_rank(d) < 7,
        (d == domain_at(k)) <==> domain_rank(d) == k,
{
}

/// No entry of a domain, no entries of it.
proof fn lemma_of_domain_none(s: Seq<ScriptApi>, d: Domain)
    requires
        forall|i: int| 0 <= i < s.len() ==> (#[trigger] s[i]).domain != d,
    ensures
        of_domain(s, d) == Seq::<ScriptApi>::empty(),
    decreases s.len(),
{
    if s.len() > 0 {
        lemma_of_domain_none(s.drop_last(), d);
    }
}

/// Adding entry `x` of rank `r` behind `t`, all of rank at most `r`: the
/// domains before `r` are unchanged, and from `r` on the result is the
/// earlier one with `x` behind it.
proof fn lemma_by_domains_push(t: Seq<ScriptApi>, x: ScriptApi, n: int)
    requires
        0 <= n <= 7,
        forall|i: int| 0 <= i < t.len() ==> domain_rank((#[trigger] t[i]).domain) <= domain_rank(x.domain),
    ensures
        n <= domain_rank(x.domain) ==> by_domains(t.push(x), n) == by_domains(t, n),
        n > domain_rank(x.domain) ==> by_domains(t.push(x), n) == by_domains(t, n).push(x),
    decreases n,
{
    let r = domain_rank(x.domain);
    lemma_domain_at_rank(x.domain, 0);
    if n > 0 {
        lemma_by_domains_push(t, x, n - 1);
        let d = domain_at(n - 1);
        lemma_domain_at_rank(x.domain, n - 1);
        assert(t.push(x).drop_last() =~= t);
        if n - 1 > r {
            assert forall|i: int| 0 <= i < t.len() implies (#[trigger] t[i]).domain != d by {
                lemma_domain_at_rank(t[i].domain, n - 1);
            }
            lemma_of_domain_none(t, d);
            assert(by_domains(t.push(x), n) =~= by_domains(t, n).push(x));
        } else if n - 1 == r {
            assert(by_domains(t.push(x), n) =~= by_domains(t, n).push(x));
        }
    }
}

/// A sequence grouped by domain in presentation order is its domains'
/// entries, one domain after another.
proof fn lemma_grouped_is_by_domains(s: Seq<ScriptApi>)
    requires
        forall|i: int, j: int| 0 <= i <= j < s.len() ==> domain_rank((#[trigger] s[i]).domain) <= domain_rank(
            (#[trigger] s[j]).domain,
        ),
    ensures
        by_domains(s, 7) == s,
    decreases s.len(),
{
    if s.len() == 0 {
        assert forall|n: int| 0 <= n <= 7 implies #[trigger] by_domains(s, n) == s by {
            lemma_by_domains_empty(s, n);
        }
        assert(by_domains(s, 7) == s);
    } else {
        let t = s.drop_last();
        let x = s.last();
        assert forall|i: int, j: int| 0 <= i <= j < t.len() implies domain_rank((#[trigger] t[i]).domain)
            <= domain_rank((#[trigger] t[j]).domain) by {
            assert(t[i] == s[i] && t[j] == s[j]);
        }
        lemma_grouped_is_by_domains(t);
        assert forall|i: int| 0 <= i < t.len() implies domain_rank((#[trigger] t[i]).domain) <= domain_rank(
            x.domain,
        ) by {
            assert(t[i] == s[i] && x == s[s.len() - 1]);
        }
        lemma_by_domains_push(t, x, 7);
        lemma_domain_at_rank(x.domain, 0);
        assert(t.push(x) =~= s);
    }
}

/// An empty sequence has no entries in any domain.
proof fn lemma_by_domains_empty(s: Seq<ScriptApi>, n: int)
    requires
        s.len() == 0,
        0 <= n <= 7,
    ensures
        by_domains(s, n) == s,
    decreases n,
{
    if n > 0 {
        lemma_by_domains_empty(s, n - 1);
        assert(by_domains(s, n) =~= s);
    }
}

/// The catalog is exactly the entries of each domain in presentation order,
/// one domain after another: listing every domain's entries lists the whole
/// catalog, in order.
pub proof fn lemma_catalog_is_its_domains()
    ensures
        by_domains(catalog(), 7) == catalog(),
{
    assert forall|i: int, j: int| 0 <= i <= j < catalog().len() implies domain_rank(
        (#[trigger] catalog()[i]).domain,
    ) <= domain_rank((#[trigger] catalog()[j]).domain) by {
        lemma_catalog_grouped(i, j);
    }
    lemma_grouped_is_by_domains(catalog());
}

/// Every domain has at least one entry.
pub proof fn lemma_every_domain_has_entries(d: Domain)
    ensures
        exists|i: int| 0 <= i < CATALOG_LEN && (#[trigger] catalog()[i]).domain == d,
{
    reveal(catalog_entry);
    let i: int = match d {
        Domain::EntryPoint => 0,
        Domain::Files => 2,
        Domain::Images => 8,
        Domain::Palette => 20,
        Domain::StructuredData => 22,
        Domain::Text => 41,
        Domain::Random => 45,
    };
    assert(catalog()[i].domain == d);
}

/// The only entry a script defines itself is the first, the `custom` entry
/// point.
pub proof fn lemma_only_custom_is_script_defined(i: int)
    requires
        0 <= i < CATALOG_LEN,
    ensures
        (catalog()[i].origin is Script) <==> i == 0,
        catalog()[0].name == "custom",
{
    reveal(catalog_entry);
}

/// Every feature-gated entry names one of the host's two features, and has a
/// note.
pub proof fn lemma_feature_gates_are_known(i: int)
    requires
        0 <= i < CATALOG_LEN,
    ensures
        catalog()[i].availability matches Availability::Feature(f) ==> (f == "fs" || f == "rand")
            && availability_note(catalog()[i].availability) is Some,
{
    reveal(catalog_entry);
}

} // verus!
