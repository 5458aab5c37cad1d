//! Board definitions: from a parsed TOML document to a [`Board`].
//!
//! A board document is a table with a string `name`; each of its other entries is a
//! toolchain node named by its key. A node is a table whose entries `detect`, `layer` and
//! `cmd` are its fields and whose every other entry is a child node.
use vstd::prelude::*;

use crate::document::{Document, as_string, entries_get, entries_get_exec};
use crate::formats::{parse_toml, toml_document};
use crate::engine::{
    Board, DetectRule, DetectView, LayerCmd, LayerView, Toolchain, VarRule, VarView, opt_view,
};

verus! {

// ---------------------------------------------------------------------------
// Models
// ---------------------------------------------------------------------------

/// A required string field: present and a string.
pub open spec fn req_str(v: Option<Document>) -> Option<Seq<char>> {
    match v {
        Some(d) => as_string(d),
        None => None,
    }
}

/// An optional string field: absent (`Some(None)`) or a string; `None` if it is there
/// but not a string.
pub open spec fn opt_str(v: Option<Document>) -> Option<Option<Seq<char>>> {
    match v {
        None => Some(None),
        Some(d) => match as_string(d) {
            Some(s) => Some(Some(s)),
            None => None,
        },
    }
}

/// The detection rule that `d` describes: a table with a string `file` and an optional
/// string `key`, or an array of one or two strings (`file`, then `key`).
pub open spec fn detect_of(d: Document) -> Option<DetectView> {
    match d {
        Document::Table(es) => match (
            req_str(entries_get(es@, "file"@)),
            opt_str(entries_get(es@, "key"@)),
        ) {
            (Some(f), Some(k)) => Some(DetectView { file: f, key: k }),
            _ => None,
        },
        Document::Array(xs) => if xs@.len() == 1 {
            match as_string(xs@[0]) {
                Some(f) => Some(DetectView { file: f, key: None }),
                None => None,
            }
        } else if xs@.len() == 2 {
            match (as_string(xs@[0]), as_string(xs@[1])) {
                (Some(f), Some(k)) => Some(DetectView { file: f, key: Some(k) }),
                _ => None,
            }
        } else {
            None
        },
        _ => None,
    }
}

/// The string-to-string pairs of table entries whose values are all strings.
pub open spec fn str_pairs(es: Seq<(String, Document)>) -> Option<Seq<(Seq<char>, Seq<char>)>>
    decreases es.len(),
{
    if es.len() == 0 {
        Some(seq![])
    } else {
        match (str_pairs(es.drop_last()), as_string(es.last().1)) {
            (Some(ps), Some(v)) => Some(ps.push((es.last().0@, v))),
            _ => None,
        }
    }
}

/// A string map: a table of strings; empty when absent.
pub open spec fn str_map_of(v: Option<Document>) -> Option<Seq<(Seq<char>, Seq<char>)>> {
    match v {
        None => Some(seq![]),
        Some(Document::Table(es)) => str_pairs(es@),
        Some(_) => None,
    }
}

/// The variable rule that `d` describes: a table with string `file` and `key` and an
/// optional string map `map`, or an array of `file`, `key` and optionally `map`.
pub open spec fn var_of(d: Document) -> Option<VarView> {
    match d {
        Document::Table(es) => match (
            req_str(entries_get(es@, "file"@)),
            req_str(entries_get(es@, "key"@)),
            str_map_of(entries_get(es@, "map"@)),
        ) {
            (Some(f), Some(k), Some(m)) => Some(VarView { file: f, key: k, map: m }),
            _ => None,
        },
        Document::Array(xs) => if xs@.len() == 2 || xs@.len() == 3 {
            match (
                as_string(xs@[0]),
                as_string(xs@[1]),
                if xs@.len() == 3 {
                    str_map_of(Some(xs@[2]))
                } else {
                    Some(seq![])
                },
            ) {
                (Some(f), Some(k), Some(m)) => Some(VarView { file: f, key: k, map: m }),
                _ => None,
            }
        } else {
            None
        },
        _ => None,
    }
}

/// The layer that `d` describes: a string is a literal line; a table with a string `cmd`
/// and a variable rule `var` is a template.
pub open spec fn layer_of(d: Document) -> Option<LayerView> {
    match d {
        Document::Str(s) => Some(LayerView::Literal(s@)),
        Document::Table(es) => match (req_str(entries_get(es@, "cmd"@)), entries_get(es@, "var"@)) {
            (Some(c), Some(v)) => match var_of(v) {
                Some(var) => Some(LayerView::Templated { cmd: c, var }),
                None => None,
            },
            _ => None,
        },
        _ => None,
    }
}

/// The detection rules of `xs`, if every item describes one.
pub open spec fn detect_items(xs: Seq<Document>) -> Option<Seq<DetectView>>
    decreases xs.len(),
{
    if xs.len() == 0 {
        Some(seq![])
    } else {
        match (detect_items(xs.drop_last()), detect_of(xs.last())) {
            (Some(rs), Some(r)) => Some(rs.push(r)),
            _ => None,
        }
    }
}

/// The layers of `xs`, if every item describes one.
pub open spec fn layer_items(xs: Seq<Document>) -> Option<Seq<LayerView>>
    decreases xs.len(),
{
    if xs.len() == 0 {
        Some(seq![])
    } else {
        match (layer_items(xs.drop_last()), layer_of(xs.last())) {
            (Some(ls), Some(l)) => Some(ls.push(l)),
            _ => None,
        }
    }
}

/// A node's `detect` field: an array of rules; none when absent.
pub open spec fn detect_list_of(v: Option<Document>) -> Option<Seq<DetectView>> {
    match v {
        None => Some(seq![]),
        Some(Document::Array(xs)) => detect_items(xs@),
        Some(_) => None,
    }
}

/// A node's `layer` field: an array of layers; none when absent.
pub open spec fn layer_list_of(v: Option<Document>) -> Option<Seq<LayerView>> {
    match v {
        None => Some(seq![]),
        Some(Document::Array(xs)) => layer_items(xs@),
        Some(_) => None,
    }
}

/// The keys that are a node's own fields rather than children.
pub open spec fn node_field(k: Seq<char>) -> bool {
    k == "detect"@ || k == "layer"@ || k == "cmd"@
}

/// The key that is a board's own field rather than a toolchain.
pub open spec fn board_field(k: Seq<char>) -> bool {
    k == "name"@
}

/// Whether `k` is a field (not a child) at the top level (`top`) or inside a node.
pub open spec fn is_field(k: Seq<char>, top: bool) -> bool {
    if top {
        board_field(k)
    } else {
        node_field(k)
    }
}

/// `d` describes a toolchain node.
pub open spec fn node_valid(d: Document) -> bool
    decreases d,
{
    match d {
        Document::Table(es) => {
            &&& detect_list_of(entries_get(es@, "detect"@)) is Some
            &&& layer_list_of(entries_get(es@, "layer"@)) is Some
            &&& opt_str(entries_get(es@, "cmd"@)) is Some
            &&& children_valid(es@, false)
        },
        _ => false,
    }
}

/// Every entry of `es` that is not a field describes a toolchain node.
pub open spec fn children_valid(es: Seq<(String, Document)>, top: bool) -> bool
    decreases es,
{
    es.len() == 0 || (children_valid(es.drop_last(), top) && (is_field(es.last().0@, top)
        || node_valid(es.last().1)))
}

/// `tc` is the toolchain node named `name` that `d` describes, its children in the order
/// of their entries.
pub open spec fn node_decodes(d: Document, name: Seq<char>, tc: Toolchain) -> bool
    decreases d,
{
    match d {
        Document::Table(es) => {
            &&& tc.name@ == name
            &&& detect_list_of(entries_get(es@, "detect"@)) == Some(
                tc.detect@.map_values(|r: DetectRule| r@),
            )
            &&& layer_list_of(entries_get(es@, "layer"@)) == Some(
                tc.layer@.map_values(|l: LayerCmd| l@),
            )
            &&& opt_str(entries_get(es@, "cmd"@)) == Some(opt_view(tc.default_cmd))
            &&& children_decode(es@, false, tc.sub@)
        },
        _ => false,
    }
}

/// `tcs` are the nodes that the non-field entries of `es` describe, in order.
pub open spec fn children_decode(es: Seq<(String, Document)>, top: bool, tcs: Seq<Toolchain>) -> bool
    decreases es,
{
    if es.len() == 0 {
        tcs.len() == 0
    } else if is_field(es.last().0@, top) {
        children_decode(es.drop_last(), top, tcs)
    } else {
        &&& tcs.len() > 0
        &&& children_decode(es.drop_last(), top, tcs.drop_last())
        &&& node_decodes(es.last().1, es.last().0@, tcs.last())
    }
}

/// `d` describes a board.
pub open spec fn board_valid(d: Document) -> bool {
    match d {
        Document::Table(es) => req_str(entries_get(es@, "name"@)) is Some && children_valid(
            es@,
            true,
        ),
        _ => false,
    }
}

/// `b` is the board that `d` describes.
pub open spec fn board_decodes(d: Document, b: Board) -> bool {
    match d {
        Document::Table(es) => req_str(entries_get(es@, "name"@)) == Some(b.name@)
            && children_decode(es@, true, b.toolchains@),
        _ => false,
    }
}


// ---------------------------------------------------------------------------
// Decoding
// ---------------------------------------------------------------------------

/// The document that an optional reference points to.
pub open spec fn opt_doc(v: Option<&Document>) -> Option<Document> {
    match v {
        Some(d) => Some(*d),
        None => None,
    }
}

/// A board document does not describe a board.
pub struct BoardError;

impl BoardError {
    /// The error's text.
    pub fn message(&self) -> (m: String)
        ensures
            m@ == "Failed to parse board TOML"@,
    {
        "Failed to parse board TOML".to_owned()
    }
}

/// The value under the literal `key` among `es`.
fn field<'a>(es: &'a Vec<(String, Document)>, key: &str) -> (r: Option<&'a Document>)
    ensures
        opt_doc(r) == entries_get(es@, key@),
{
    let k = key.to_owned();
    entries_get_exec(es, &k)
}

/// The string that `d` is.
fn string_of(d: &Document) -> (r: Option<String>)
    ensures
        opt_view(r) == as_string(*d),
{
    match d {
        Document::Str(s) => Some(s.clone()),
        _ => None,
    }
}

/// A required string field (see [`req_str`]).
fn decode_req_str(v: Option<&Document>) -> (r: Option<String>)
    ensures
        opt_view(r) == req_str(opt_doc(v)),
{
    match v {
        Some(d) => string_of(d),
        None => None,
    }
}

/// An optional string field (see [`opt_str`]).
fn decode_opt_str(v: Option<&Document>) -> (r: Option<Option<String>>)
    ensures
        r matches Some(o) ==> opt_str(opt_doc(v)) == Some(opt_view(o)),
        r is None ==> opt_str(opt_doc(v)) is None,
{
    match v {
        None => Some(None),
        Some(d) => match string_of(d) {
            Some(s) => Some(Some(s)),
            None => None,
        },
    }
}

/// The detection rule that `d` describes (see [`detect_of`]).
fn decode_detect(d: &Document) -> (r: Option<DetectRule>)
    ensures
        r matches Some(x) ==> detect_of(*d) == Some(x@),
        r is None ==> detect_of(*d) is None,
{
    match d {
        Document::Table(es) => {
            let file = decode_req_str(field(es, "file"));
            let key = decode_opt_str(field(es, "key"));
            match (file, key) {
                (Some(file), Some(key)) => Some(DetectRule { file, key }),
                _ => None,
            }
        },
        Document::Array(xs) => {
            if xs.len() == 1 {
                match string_of(&xs[0]) {
                    Some(file) => Some(DetectRule { file, key: None }),
                    None => None,
                }
            } else if xs.len() == 2 {
                match (string_of(&xs[0]), string_of(&xs[1])) {
                    (Some(file), Some(key)) => Some(DetectRule { file, key: Some(key) }),
                    _ => None,
                }
            } else {
                None
            }
        },
        _ => None,
    }
}

/// The pairs of a table of strings (see [`str_pairs`]).
fn decode_str_pairs(es: &Vec<(String, Document)>) -> (r: Option<Vec<(String, String)>>)
    ensures
        r matches Some(ps) ==> str_pairs(es@) == Some(
            ps@.map_values(|e: (String, String)| (e.0@, e.1@)),
        ),
        r is None ==> str_pairs(es@) is None,
{
    let mut out: Vec<(String, String)> = Vec::new();
    let mut i: usize = 0;
    while i < es.len()
        invariant
            0 <= i <= es.len(),
            str_pairs(es@.take(i as int)) == Some(
                out@.map_values(|e: (String, String)| (e.0@, e.1@)),
            ),
        decreases es.len() - i,
    {
        assert(es@.take(i + 1).drop_last() =~= es@.take(i as int));
        match string_of(&es[i].1) {
            Some(v) => {
                let ghost old = out@;
                let k = es[i].0.clone();
                out.push((k, v));
                assert(out@.map_values(|e: (String, String)| (e.0@, e.1@)) =~= old.map_values(
                    |e: (String, String)| (e.0@, e.1@),
                ).push((k@, v@)));
            },
            None => {
                proof {
                    lemma_str_pairs_prefix(es@, (i + 1) as int);
                }
                return None;
            },
        }
        i = i + 1;
    }
    assert(es@.take(es.len() as int) =~= es@);
    Some(out)
}

proof fn lemma_str_pairs_prefix(es: Seq<(String, Document)>, j: int)
    requires
        0 <= j <= es.len(),
        str_pairs(es.take(j)) is None,
    ensures
        str_pairs(es) is None,
    decreases es.len(),
{
    if j < es.len() {
        assert(es.drop_last().take(j) =~= es.take(j));
        lemma_str_pairs_prefix(es.drop_last(), j);
    } else {
        assert(es.take(j) =~= es);
    }
}

/// A string map (see [`str_map_of`]).
fn decode_str_map(v: Option<&Document>) -> (r: Option<Vec<(String, String)>>)
    ensures
        r matches Some(ps) ==> str_map_of(opt_doc(v)) == Some(
            ps@.map_values(|e: (String, String)| (e.0@, e.1@)),
        ),
        r is None ==> str_map_of(opt_doc(v)) is None,
{
    match v {
        None => {
            let ps: Vec<(String, String)> = Vec::new();
            assert(ps@.map_values(|e: (String, String)| (e.0@, e.1@)) =~= seq![]);
            Some(ps)
        },
        Some(Document::Table(es)) => decode_str_pairs(es),
        Some(_) => None,
    }
}

/// The variable rule that `d` describes (see [`var_of`]).
fn decode_var(d: &Document) -> (r: Option<VarRule>)
    ensures
        r matches Some(x) ==> var_of(*d) == Some(x@),
        r is None ==> var_of(*d) is None,
{
    match d {
        Document::Table(es) => {
            let file = decode_req_str(field(es, "file"));
            let key = decode_req_str(field(es, "key"));
            let map = decode_str_map(field(es, "map"));
            match (file, key, map) {
                (Some(file), Some(key), Some(map)) => Some(VarRule { file, key, map }),
                _ => None,
            }
        },
        Document::Array(xs) => {
            if xs.len() == 2 || xs.len() == 3 {
                let file = string_of(&xs[0]);
                let key = string_of(&xs[1]);
                let map = if xs.len() == 3 {
                    decode_str_map(Some(&xs[2]))
                } else {
                    decode_str_map(None)
                };
                match (file, key, map) {
                    (Some(file), Some(key), Some(map)) => Some(VarRule { file, key, map }),
                    _ => None,
                }
            } else {
                None
            }
        },
        _ => None,
    }
}

/// The layer that `d` describes (see [`layer_of`]).
fn decode_layer(d: &Document) -> (r: Option<LayerCmd>)
    ensures
        r matches Some(x) ==> layer_of(*d) == Some(x@),
        r is None ==> layer_of(*d) is None,
{
    match d {
        Document::Str(s) => Some(LayerCmd::Literal(s.clone())),
        Document::Table(es) => {
            let cmd = decode_req_str(field(es, "cmd"));
            match (cmd, field(es, "var")) {
                (Some(cmd), Some(v)) => match decode_var(v) {
                    Some(var) => Some(LayerCmd::Templated { cmd, var }),
                    None => None,
                },
                _ => None,
            }
        },
        _ => None,
    }
}

proof fn lemma_detect_items_prefix(xs: Seq<Document>, j: int)
    requires
        0 <= j <= xs.len(),
        detect_items(xs.take(j)) is None,
    ensures
        detect_items(xs) is None,
    decreases xs.len(),
{
    if j < xs.len() {
        assert(xs.drop_last().take(j) =~= xs.take(j));
        lemma_detect_items_prefix(xs.drop_last(), j);
    } else {
        assert(xs.take(j) =~= xs);
    }
}

proof fn lemma_layer_items_prefix(xs: Seq<Document>, j: int)
    requires
        0 <= j <= xs.len(),
        layer_items(xs.take(j)) is None,
    ensures
        layer_items(xs) is None,
    decreases xs.len(),
{
    if j < xs.len() {
        assert(xs.drop_last().take(j) =~= xs.take(j));
        lemma_layer_items_prefix(xs.drop_last(), j);
    } else {
        assert(xs.take(j) =~= xs);
    }
}

/// A node's detection rules (see [`detect_list_of`]).
fn decode_detect_list(v: Option<&Document>) -> (r: Option<Vec<DetectRule>>)
    ensures
        r matches Some(rs) ==> detect_list_of(opt_doc(v)) == Some(
            rs@.map_values(|x: DetectRule| x@),
        ),
        r is None ==> detect_list_of(opt_doc(v)) is None,
{
    match v {
        None => {
            let rs: Vec<DetectRule> = Vec::new();
            assert(rs@.map_values(|x: DetectRule| x@) =~= seq![]);
            Some(rs)
        },
        Some(Document::Array(xs)) => {
            let mut out: Vec<DetectRule> = Vec::new();
            let mut i: usize = 0;
            while i < xs.len()
                invariant
                    0 <= i <= xs.len(),
                    opt_doc(v) == Some(Document::Array(*xs)),
                    detect_items(xs@.take(i as int)) == Some(out@.map_values(|x: DetectRule| x@)),
                decreases xs.len() - i,
            {
                assert(xs@.take(i + 1).drop_last() =~= xs@.take(i as int));
                match decode_detect(&xs[i]) {
                    Some(rule) => {
                        let ghost old = out@;
                        out.push(rule);
                        assert(out@.map_values(|x: DetectRule| x@) =~= old.map_values(
                            |x: DetectRule| x@,
                        ).push(rule@));
                    },
                    None => {
                        proof {
                            lemma_detect_items_prefix(xs@, (i + 1) as int);
                        }
                        return None;
                    },
                }
                i = i + 1;
            }
            assert(xs@.take(xs.len() as int) =~= xs@);
            Some(out)
        },
        Some(_) => None,
    }
}

/// A node's layers (see [`layer_list_of`]).
fn decode_layer_list(v: Option<&Document>) -> (r: Option<Vec<LayerCmd>>)
    ensures
        r matches Some(ls) ==> layer_list_of(opt_doc(v)) == Some(
            ls@.map_values(|x: LayerCmd| x@),
        ),
        r is None ==> layer_list_of(opt_doc(v)) is None,
{
    match v {
        None => {
            let ls: Vec<LayerCmd> = Vec::new();
            assert(ls@.map_values(|x: LayerCmd| x@) =~= seq![]);
            Some(ls)
        },
        Some(Document::Array(xs)) => {
            let mut out: Vec<LayerCmd> = Vec::new();
            let mut i: usize = 0;
            while i < xs.len()
                invariant
                    0 <= i <= xs.len(),
                    opt_doc(v) == Some(Document::Array(*xs)),
                    layer_items(xs@.take(i as int)) == Some(out@.map_values(|x: LayerCmd| x@)),
                decreases xs.len() - i,
            {
                assert(xs@.take(i + 1).drop_last() =~= xs@.take(i as int));
                match decode_layer(&xs[i]) {
                    Some(layer) => {
                        let ghost old = out@;
                        out.push(layer);
                        assert(out@.map_values(|x: LayerCmd| x@) =~= old.map_values(
                            |x: LayerCmd| x@,
                        ).push(layer@));
                    },
                    None => {
                        proof {
                            lemma_layer_items_prefix(xs@, (i + 1) as int);
                        }
                        return None;
                    },
                }
                i = i + 1;
            }
            assert(xs@.take(xs.len() as int) =~= xs@);
            Some(out)
        },
        Some(_) => None,
    }
}


/// Whether `k` names a field rather than a child (see [`is_field`]).
fn is_field_exec(k: &String, top: bool) -> (r: bool)
    ensures
        r == is_field(k@, top),
{
    if top {
        *k == "name".to_owned()
    } else {
        *k == "detect".to_owned() || *k == "layer".to_owned() || *k == "cmd".to_owned()
    }
}

proof fn lemma_children_valid_prefix(es: Seq<(String, Document)>, top: bool, j: int)
    requires
        0 <= j <= es.len(),
        !children_valid(es.take(j), top),
    ensures
        !children_valid(es, top),
    decreases es.len(),
{
    if j < es.len() {
        assert(es.drop_last().take(j) =~= es.take(j));
        lemma_children_valid_prefix(es.drop_last(), top, j);
    } else {
        assert(es.take(j) =~= es);
    }
}

/// The toolchain nodes that the non-field entries of `es` describe, in order; `None` if
/// one of them does not describe a node.
fn decode_children(es: &Vec<(String, Document)>, top: bool) -> (r: Option<Vec<Toolchain>>)
    ensures
        r matches Some(tcs) ==> children_decode(es@, top, tcs@),
        (r is Some) == children_valid(es@, top),
    decreases es@,
{
    let mut out: Vec<Toolchain> = Vec::new();
    let mut i: usize = 0;
    while i < es.len()
        invariant
            0 <= i <= es.len(),
            children_valid(es@.take(i as int), top),
            children_decode(es@.take(i as int), top, out@),
        decreases es.len() - i,
    {
        assert(es@.take(i + 1).drop_last() =~= es@.take(i as int));
        assert(es@.take(i + 1).last() == es@[i as int]);
        if !is_field_exec(&es[i].0, top) {
            proof {
                let e = es@[i as int];
                assert(decreases_to!(es@ => e));
                assert(decreases_to!(e => e.1));
            }
            match decode_node(&es[i].1, &es[i].0) {
                Some(tc) => {
                    let ghost old = out@;
                    out.push(tc);
                    assert(out@.drop_last() =~= old);
                },
                None => {
                    proof {
                        lemma_children_valid_prefix(es@, top, (i + 1) as int);
                    }
                    return None;
                },
            }
        }
        i = i + 1;
    }
    assert(es@.take(es.len() as int) =~= es@);
    Some(out)
}

/// The toolchain node named `name` that `d` describes (see [`node_decodes`]).
fn decode_node(d: &Document, name: &String) -> (r: Option<Toolchain>)
    ensures
        r matches Some(tc) ==> node_decodes(*d, name@, tc),
        (r is Some) == node_valid(*d),
    decreases d,
{
    match d {
        Document::Table(es) => {
            let detect = decode_detect_list(field(es, "detect"));
            let layer = decode_layer_list(field(es, "layer"));
            let cmd = decode_opt_str(field(es, "cmd"));
            proof {
                assert(decreases_to!(*d => (*d)->Table_0));
                assert(decreases_to!((*d)->Table_0 => (*d)->Table_0@));
            }
            let sub = decode_children(es, false);
            match (detect, layer, cmd, sub) {
                (Some(detect), Some(layer), Some(default_cmd), Some(sub)) => Some(
                    Toolchain { name: name.clone(), detect, layer, default_cmd, sub },
                ),
                _ => None,
            }
        },
        _ => None,
    }
}

/// The board that `doc` describes; an error if it describes none (see [`board_valid`]
/// and [`board_decodes`]).
pub fn board_from_document(doc: &Document) -> (r: Result<Board, BoardError>)
    ensures
        r matches Ok(b) ==> board_decodes(*doc, b),
        (r is Ok) == board_valid(*doc),
{
    match doc {
        Document::Table(es) => {
            let name = decode_req_str(field(es, "name"));
            let toolchains = decode_children(es, true);
            match (name, toolchains) {
                (Some(name), Some(toolchains)) => Ok(Board { name, toolchains }),
                _ => Err(BoardError),
            }
        },
        _ => Err(BoardError),
    }
}


/// The text describes a board: it is valid TOML whose document describes a board.
pub open spec fn toml_board_valid(text: Seq<char>) -> bool {
    match toml_document(text) {
        Some(d) => board_valid(d),
        None => false,
    }
}

/// `b` is the board that the text describes.
pub open spec fn toml_board_decodes(text: Seq<char>, b: Board) -> bool {
    match toml_document(text) {
        Some(d) => board_decodes(d, b),
        None => false,
    }
}

/// The board that the TOML text `toml_str` defines; an error where it is not valid TOML
/// or its document describes no board.
pub fn load_board_from_toml(toml_str: &str) -> (r: Result<Board, BoardError>)
    ensures
        (r is Ok) == toml_board_valid(toml_str@),
        r matches Ok(b) ==> toml_board_decodes(toml_str@, b),
{
    match parse_toml(toml_str) {
        Some(doc) => board_from_document(&doc),
        None => Err(BoardError),
    }
}

/// The boards that the TOML texts `sources` define, in order; an error if one of them
/// defines none.
pub fn get_supported_boards(sources: &Vec<String>) -> (r: Result<Vec<Board>, BoardError>)
    ensures
        r matches Ok(bs) ==> bs@.len() == sources@.len() && forall|i: int|
            0 <= i < sources@.len() ==> toml_board_decodes(#[trigger] sources@[i]@, bs@[i]),
        (r is Ok) == forall|i: int| 0 <= i < sources@.len() ==> toml_board_valid(#[trigger] sources@[i]@),
{
    let mut out: Vec<Board> = Vec::new();
    let mut i: usize = 0;
    while i < sources.len()
        invariant
            0 <= i <= sources.len(),
            out@.len() == i,
            forall|j: int| 0 <= j < i ==> toml_board_decodes(#[trigger] sources@[j]@, out@[j]),
            forall|j: int| 0 <= j < i ==> toml_board_valid(#[trigger] sources@[j]@),
        decreases sources.len() - i,
    {
        match load_board_from_toml(sources[i].as_str()) {
            Ok(b) => {
                out.push(b);
            },
            Err(e) => {
                return Err(e);
            },
        }
        i = i + 1;
    }
    Ok(out)
}

} // verus!
