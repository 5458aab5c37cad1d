//! The "Supported recipes" chapter of the documentation, generated from the board
//! definitions.
use vstd::prelude::*;

use crate::document::{Document, entries_get, entries_get_exec};
use crate::formats::{parse_toml, toml_document};
use crate::engine::string_views;
use crate::text::{chars_of, clone_strings, join, join_strings, slice_chars, string_from_chars};

verus! {

// ---------------------------------------------------------------------------
// Models
// ---------------------------------------------------------------------------

/// `c` in upper case, for an ASCII `c`.
pub open spec fn ascii_upper(c: char) -> char {
    if 'a' <= c <= 'z' {
        ((c as u32) - 32) as char
    } else {
        c
    }
}

/// A board's name as a title: its first character in upper case.
pub open spec fn title(name: Seq<char>) -> Seq<char> {
    if name.len() == 0 {
        seq![]
    } else {
        seq![ascii_upper(name[0])] + name.skip(1)
    }
}

/// A name whose first character, if any, is ASCII: one that can be made a title.
pub open spec fn titlable(name: Seq<char>) -> bool {
    name.len() == 0 || (name[0] as u32) < 128
}

/// How a detection rule reads in the chapter; `None` for an entry that is not a table
/// with a string `file`.
pub open spec fn detect_line(rule: Document) -> Option<Seq<char>> {
    match rule {
        Document::Table(t) => match entries_get(t@, "file"@) {
            Some(Document::Str(f)) => Some(
                match entries_get(t@, "key"@) {
                    Some(Document::Str(k)) => "`"@ + f@ + "` contains `"@ + k@ + "`"@,
                    _ => "`"@ + f@ + "` exists"@,
                },
            ),
            _ => None,
        },
        _ => None,
    }
}

/// How the rules of `rules` read, those that are not rules left out.
pub open spec fn detect_lines(rules: Seq<Document>) -> Seq<Seq<char>>
    decreases rules.len(),
{
    if rules.len() == 0 {
        seq![]
    } else {
        detect_lines(rules.drop_last()) + match detect_line(rules.last()) {
            Some(l) => seq![l],
            None => seq![],
        }
    }
}

/// How a node's own detection rules read: those of its `detect` array.
pub open spec fn detect_summary(table: Seq<(String, Document)>) -> Seq<Seq<char>> {
    match entries_get(table, "detect"@) {
        Some(Document::Array(rules)) => detect_lines(rules@),
        _ => seq![],
    }
}

/// Keys that are fields of a node, not children.
pub open spec fn skipped_key(k: Seq<char>) -> bool {
    k == "detect"@ || k == "layer"@ || k == "cmd"@ || k == "name"@
}

/// The label of a recipe at `path`: its names joined by ` → `; `default` at the root.
pub open spec fn path_label(path: Seq<Seq<char>>) -> Seq<char> {
    if path.len() == 0 {
        "default"@
    } else {
        join(path, " → "@)
    }
}

/// The recipes of the node `table` at `path`, each with the rules that detect it: those
/// of its ancestors (`parent`) and its own. A node with a `cmd` is a recipe; otherwise its
/// table-valued children are searched in order.
pub open spec fn table_recipes(
    table: Seq<(String, Document)>,
    path: Seq<Seq<char>>,
    parent: Seq<Seq<char>>,
) -> Seq<(Seq<char>, Seq<Seq<char>>)>
    decreases table, 1nat,
{
    let combined = parent + detect_summary(table);
    if entries_get(table, "cmd"@) is Some {
        seq![(path_label(path), combined)]
    } else {
        child_recipes(table, path, combined)
    }
}

/// The recipes of the table-valued children among `es`, in order.
pub open spec fn child_recipes(
    es: Seq<(String, Document)>,
    path: Seq<Seq<char>>,
    combined: Seq<Seq<char>>,
) -> Seq<(Seq<char>, Seq<Seq<char>>)>
    decreases es, 0nat,
{
    if es.len() == 0 {
        seq![]
    } else {
        child_recipes(es.drop_last(), path, combined) + if skipped_key(es.last().0@) {
            seq![]
        } else {
            match es.last().1 {
                Document::Table(sub) => table_recipes(sub@, path.push(es.last().0@), combined),
                _ => seq![],
            }
        }
    }
}

/// The detection cell of a row.
pub open spec fn detect_cell(d: Seq<Seq<char>>) -> Seq<char> {
    if d.len() == 0 {
        "—"@
    } else {
        join(d, ", "@)
    }
}

/// The table rows of `rs`.
pub open spec fn rows(rs: Seq<(Seq<char>, Seq<Seq<char>>)>) -> Seq<char>
    decreases rs.len(),
{
    if rs.len() == 0 {
        seq![]
    } else {
        rows(rs.drop_last()) + "| `"@ + rs.last().0 + "` | "@ + detect_cell(rs.last().1) + " |\n"@
    }
}

/// A board's name: its string `name`, else `unknown`.
pub open spec fn board_name(table: Seq<(String, Document)>) -> Seq<char> {
    match entries_get(table, "name"@) {
        Some(Document::Str(s)) => s@,
        _ => "unknown"@,
    }
}

/// A board's section of the chapter.
pub open spec fn section(table: Seq<(String, Document)>) -> Seq<char> {
    "\n## "@ + title(board_name(table)) + "\n\n"@ + "| Recipe | Detected by |\n"@
        + "|--------|-------------|\n"@ + rows(table_recipes(table, seq![], seq![]))
}

/// The entries of a table document.
pub open spec fn table_of(d: Document) -> Seq<(String, Document)> {
    match d {
        Document::Table(es) => es@,
        _ => seq![],
    }
}

/// The sections of the boards `docs`, in order.
pub open spec fn sections(docs: Seq<Document>) -> Seq<char>
    decreases docs.len(),
{
    if docs.len() == 0 {
        seq![]
    } else {
        sections(docs.drop_last()) + section(table_of(docs.last()))
    }
}

/// What opens the chapter.
pub open spec fn chapter_head() -> Seq<char> {
    "# Supported recipes\n\n"@
        + "Each board ships with definitions for the toolchains listed below. Fork auto-selects the right one based on your workspace files.\n"@
}

/// The board documents that the chapter can be made of: tables whose names can be made
/// titles.
pub open spec fn chapter_input(docs: Seq<Document>) -> bool {
    forall|i: int|
        0 <= i < docs.len() ==> (#[trigger] docs[i] is Table) && titlable(
            board_name(table_of(docs[i])),
        )
}


/// Why a board definition cannot go into the chapter.
#[derive(Debug, PartialEq, Eq, Structural)]
pub enum ChapterError {
    /// The text is not valid TOML.
    InvalidToml,
    /// The TOML document is not a table.
    NotATable,
    /// The board's name starts with a character that cannot be made a title.
    BadName,
}

impl ChapterError {
    /// The error's text.
    pub open spec fn text(self) -> Seq<char> {
        match self {
            ChapterError::InvalidToml => "invalid TOML"@,
            ChapterError::NotATable => "board TOML must be a table"@,
            ChapterError::BadName => "board name cannot be made a title"@,
        }
    }

    /// The error's text (see [`ChapterError::text`]).
    pub fn message(&self) -> (m: String)
        ensures
            m@ == self.text(),
    {
        match self {
            ChapterError::InvalidToml => "invalid TOML".to_owned(),
            ChapterError::NotATable => "board TOML must be a table".to_owned(),
            ChapterError::BadName => "board name cannot be made a title".to_owned(),
        }
    }
}

/// What is wrong with one board definition text, if anything: it is not TOML, its
/// document is not a table, or the board's name cannot be made a title.
pub open spec fn source_fault(text: Seq<char>) -> Option<ChapterError> {
    match toml_document(text) {
        None => Some(ChapterError::InvalidToml),
        Some(d) => if !(d is Table) {
            Some(ChapterError::NotATable)
        } else if !titlable(board_name(table_of(d))) {
            Some(ChapterError::BadName)
        } else {
            None
        },
    }
}

/// The fault of the first faulty text among `srcs`, if any.
pub open spec fn first_fault(srcs: Seq<Seq<char>>) -> Option<ChapterError>
    decreases srcs.len(),
{
    if srcs.len() == 0 {
        None
    } else {
        match first_fault(srcs.drop_last()) {
            Some(e) => Some(e),
            None => source_fault(srcs.last()),
        }
    }
}

/// The document that a board definition text denotes (`Other` where it is not TOML).
pub open spec fn parsed(text: Seq<char>) -> Document {
    match toml_document(text) {
        Some(d) => d,
        None => Document::Other,
    }
}

/// The documents that the texts `srcs` denote.
pub open spec fn parsed_all(srcs: Seq<Seq<char>>) -> Seq<Document> {
    srcs.map_values(|t: Seq<char>| parsed(t))
}

// ---------------------------------------------------------------------------
// Executable functions
// ---------------------------------------------------------------------------

/// A board's name as a title (see [`title`]).
pub fn board_title(name: &str) -> (t: String)
    requires
        titlable(name@),
    ensures
        t@ == title(name@),
{
    let s = chars_of(name);
    if s.len() == 0 {
        return String::new();
    }
    let c = s[0];
    let up = if 'a' <= c && c <= 'z' {
        ((c as u8) - 32) as char
    } else {
        c
    };
    let mut out: Vec<char> = Vec::new();
    out.push(up);
    let rest = slice_chars(&s, 1, s.len());
    let mut k: usize = 0;
    while k < rest.len()
        invariant
            0 <= k <= rest.len(),
            out@ == seq![up] + rest@.take(k as int),
        decreases rest.len() - k,
    {
        out.push(rest[k]);
        assert(rest@.take(k + 1) =~= rest@.take(k as int).push(rest@[k as int]));
        k = k + 1;
    }
    assert(rest@.take(rest.len() as int) =~= rest@);
    assert(rest@ =~= s@.skip(1));
    string_from_chars(&out)
}

/// How one detection rule reads (see [`detect_line`]).
fn detect_line_exec(rule: &Document) -> (r: Option<String>)
    ensures
        r matches Some(l) ==> detect_line(*rule) == Some(l@),
        r is None ==> detect_line(*rule) is None,
{
    match rule {
        Document::Table(t) => {
            let file_key = "file".to_owned();
            match entries_get_exec(t, &file_key) {
                Some(Document::Str(f)) => {
                    let key_key = "key".to_owned();
                    let mut line = "`".to_owned();
                    line.append(f.as_str());
                    match entries_get_exec(t, &key_key) {
                        Some(Document::Str(k)) => {
                            line.append("` contains `");
                            line.append(k.as_str());
                            line.append("`");
                        },
                        _ => {
                            line.append("` exists");
                        },
                    }
                    Some(line)
                },
                _ => None,
            }
        },
        _ => None,
    }
}

/// How a node's own detection rules read (see [`detect_summary`]).
pub fn extract_detect(table: &Vec<(String, Document)>) -> (r: Vec<String>)
    ensures
        string_views(r@) == detect_summary(table@),
{
    let detect_key = "detect".to_owned();
    let mut out: Vec<String> = Vec::new();
    match entries_get_exec(table, &detect_key) {
        Some(Document::Array(rules)) => {
            let mut i: usize = 0;
            while i < rules.len()
                invariant
                    0 <= i <= rules.len(),
                    string_views(out@) == detect_lines(rules@.take(i as int)),
                decreases rules.len() - i,
            {
                assert(rules@.take(i + 1).drop_last() =~= rules@.take(i as int));
                let ghost before = string_views(out@);
                match detect_line_exec(&rules[i]) {
                    Some(l) => {
                        out.push(l);
                        assert(string_views(out@) =~= before + seq![l@]);
                    },
                    None => {
                        assert(before + seq![] =~= before);
                    },
                }
                i = i + 1;
            }
            assert(rules@.take(rules.len() as int) =~= rules@);
            out
        },
        _ => {
            assert(string_views(out@) =~= seq![]);
            out
        },
    }
}

/// The views of a list of recipes and their detection rules.
pub open spec fn recipe_rows(v: Seq<(String, Vec<String>)>) -> Seq<(Seq<char>, Seq<Seq<char>>)> {
    v.map_values(|p: (String, Vec<String>)| (p.0@, string_views(p.1@)))
}

/// Whether `k` is one of a node's own fields (see [`skipped_key`]).
fn skipped_key_exec(k: &String) -> (r: bool)
    ensures
        r == skipped_key(k@),
{
    *k == "detect".to_owned() || *k == "layer".to_owned() || *k == "cmd".to_owned() || *k
        == "name".to_owned()
}

/// The recipes of the node `table` at `path` with their detection rules (see
/// [`table_recipes`]).
pub fn collect_recipes(table: &Vec<(String, Document)>, path: &Vec<String>, parent_detect: &Vec<String>) -> (r: Vec<
    (String, Vec<String>),
>)
    ensures
        recipe_rows(r@) == table_recipes(table@, string_views(path@), string_views(parent_detect@)),
    decreases table@,
{
    let mut combined = clone_strings(parent_detect);
    let mut own = extract_detect(table);
    let ghost c0 = string_views(combined@);
    combined.append(&mut own);
    let ghost comb = string_views(parent_detect@) + detect_summary(table@);
    assert(string_views(combined@) =~= comb);
    let cmd_key = "cmd".to_owned();
    if entries_get_exec(table, &cmd_key).is_some() {
        let label = if path.len() == 0 {
            "default".to_owned()
        } else {
            join_strings(path, " → ")
        };
        let mut out: Vec<(String, Vec<String>)> = Vec::new();
        out.push((label, combined));
        assert(recipe_rows(out@) =~= seq![(label@, comb)]);
        return out;
    }
    let mut results: Vec<(String, Vec<String>)> = Vec::new();
    let mut i: usize = 0;
    while i < table.len()
        invariant
            0 <= i <= table.len(),
            string_views(combined@) == comb,
            recipe_rows(results@) == child_recipes(table@.take(i as int), string_views(path@), comb),
        decreases table.len() - i,
    {
        assert(table@.take(i + 1).drop_last() =~= table@.take(i as int));
        assert(table@.take(i + 1).last() == table@[i as int]);
        let ghost before = recipe_rows(results@);
        if !skipped_key_exec(&table[i].0) {
            match &table[i].1 {
                Document::Table(sub) => {
                    let mut sub_path = clone_strings(path);
                    sub_path.push(table[i].0.clone());
                    assert(string_views(sub_path@) =~= string_views(path@).push(table@[i as int].0@));
                    proof {
                        let e = table@[i as int];
                        assert(decreases_to!(table@ => e));
                        assert(decreases_to!(e => e.1));
                        assert(decreases_to!(e.1 => (e.1)->Table_0));
                        assert(decreases_to!((e.1)->Table_0 => (e.1)->Table_0@));
                    }
                    let mut below = collect_recipes(sub, &sub_path, &combined);
                    let ghost below_v = recipe_rows(below@);
                    results.append(&mut below);
                    assert(recipe_rows(results@) =~= before + below_v);
                },
                _ => {
                    assert(before + seq![] =~= before);
                },
            }
        } else {
            assert(before + seq![] =~= before);
        }
        i = i + 1;
    }
    assert(table@.take(table.len() as int) =~= table@);
    results
}

/// The table rows of `rs` (see [`rows`]).
fn rows_exec(rs: &Vec<(String, Vec<String>)>) -> (r: String)
    ensures
        r@ == rows(recipe_rows(rs@)),
{
    let mut out = String::new();
    let mut i: usize = 0;
    while i < rs.len()
        invariant
            0 <= i <= rs.len(),
            out@ == rows(recipe_rows(rs@.take(i as int))),
        decreases rs.len() - i,
    {
        assert(recipe_rows(rs@.take(i + 1)).drop_last() =~= recipe_rows(rs@.take(i as int)));
        out.append("| `");
        out.append(rs[i].0.as_str());
        out.append("` | ");
        if rs[i].1.len() == 0 {
            out.append("—");
        } else {
            let cell = join_strings(&rs[i].1, ", ");
            out.append(cell.as_str());
        }
        out.append(" |\n");
        i = i + 1;
    }
    assert(rs@.take(rs.len() as int) =~= rs@);
    out
}

/// The "Supported recipes" chapter for the board documents `docs`, in order: a heading
/// and a table of each board's recipes with the rules that detect them.
pub fn recipes_chapter(docs: &Vec<Document>) -> (md: String)
    requires
        chapter_input(docs@),
    ensures
        md@ == chapter_head() + sections(docs@),
{
    let mut out = "# Supported recipes\n\n".to_owned();
    out.append(
        "Each board ships with definitions for the toolchains listed below. Fork auto-selects the right one based on your workspace files.\n",
    );
    let mut i: usize = 0;
    while i < docs.len()
        invariant
            0 <= i <= docs.len(),
            chapter_input(docs@),
            out@ == chapter_head() + sections(docs@.take(i as int)),
        decreases docs.len() - i,
    {
        assert(docs@.take(i + 1).drop_last() =~= docs@.take(i as int));
        assert(docs@.take(i + 1).last() == docs@[i as int]);
        assert(docs@[i as int] is Table);
        match &docs[i] {
            Document::Table(table) => {
                let name_key = "name".to_owned();
                let name = match entries_get_exec(table, &name_key) {
                    Some(Document::Str(s)) => s.clone(),
                    _ => "unknown".to_owned(),
                };
                let heading = board_title(name.as_str());
                out.append("\n## ");
                out.append(heading.as_str());
                out.append("\n\n");
                out.append("| Recipe | Detected by |\n");
                out.append("|--------|-------------|\n");
                let empty: Vec<String> = Vec::new();
                assert(string_views(empty@) =~= seq![]);
                let recipes = collect_recipes(table, &empty, &empty);
                let body = rows_exec(&recipes);
                out.append(body.as_str());
            },
            _ => {},
        }
        i = i + 1;
    }
    assert(docs@.take(docs.len() as int) =~= docs@);
    out
}

/// Whether `name` can be made a title (see [`titlable`]).
fn is_titlable(name: &str) -> (r: bool)
    ensures
        r == titlable(name@),
{
    let s = chars_of(name);
    s.len() == 0 || (s[0] as u32) < 128
}

/// The "Supported recipes" chapter for the board definition texts `sources` (sorted by
/// path): see [`recipes_chapter`]. An error, that of the first faulty text, where one
/// of them is not valid TOML, is not a table or names a board that cannot be made a
/// title.
pub fn generate_recipes_md(sources: &Vec<String>) -> (r: Result<String, ChapterError>)
    ensures
        match first_fault(string_views(sources@)) {
            Some(e) => r == Err::<String, ChapterError>(e),
            None => r matches Ok(md) && md@ == chapter_head() + sections(
                parsed_all(string_views(sources@)),
            ),
        },
{
    let ghost srcs = string_views(sources@);
    let mut docs: Vec<Document> = Vec::new();
    let mut i: usize = 0;
    while i < sources.len()
        invariant
            0 <= i <= sources.len(),
            srcs == string_views(sources@),
            first_fault(srcs.take(i as int)) is None,
            docs@ == parsed_all(srcs.take(i as int)),
            chapter_input(docs@),
        decreases sources.len() - i,
    {
        assert(srcs.take(i + 1).drop_last() =~= srcs.take(i as int));
        assert(srcs.take(i + 1).last() == sources@[i as int]@);
        let d = match parse_toml(sources[i].as_str()) {
            Some(d) => d,
            None => {
                proof {
                    lemma_fault_stays(srcs, i + 1);
                }
                return Err(ChapterError::InvalidToml);
            },
        };
        let titled = match &d {
            Document::Table(table) => {
                let name_key = "name".to_owned();
                proof {
                    reveal_strlit("name");
                    reveal_strlit("unknown");
                }
                match entries_get_exec(table, &name_key) {
                    Some(Document::Str(s)) => is_titlable(s.as_str()),
                    _ => {
                        assert(titlable("unknown"@));
                        true
                    },
                }
            },
            _ => {
                proof {
                    lemma_fault_stays(srcs, i + 1);
                }
                return Err(ChapterError::NotATable);
            },
        };
        if !titled {
            proof {
                lemma_fault_stays(srcs, i + 1);
            }
            return Err(ChapterError::BadName);
        }
        docs.push(d);
        assert(parsed_all(srcs.take(i + 1)) =~= parsed_all(srcs.take(i as int)).push(
            parsed(sources@[i as int]@),
        ));
        i = i + 1;
    }
    assert(srcs.take(sources.len() as int) =~= srcs);
    Ok(recipes_chapter(&docs))
}

/// Once a prefix of `srcs` has a fault, every longer prefix has the same one.
proof fn lemma_fault_stays(srcs: Seq<Seq<char>>, n: int)
    requires
        0 <= n <= srcs.len(),
        first_fault(srcs.take(n)) is Some,
    ensures
        first_fault(srcs) == first_fault(srcs.take(n)),
    decreases srcs.len() - n,
{
    if n < srcs.len() {
        assert(srcs.take(n + 1).drop_last() =~= srcs.take(n));
        lemma_fault_stays(srcs, n + 1);
    } else {
        assert(srcs.take(n) =~= srcs);
    }
}

} // verus!
