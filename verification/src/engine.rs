//! Board toolchain trees and their resolution into container recipes.
use vstd::prelude::*;

use crate::document::{lookup, mentions};
use crate::text::{
    chars_of, clone_strings, has_substring, index_of_char, str_contains, join, join_strings, last_segment,
    last_segment_chars, lines_of, matches_at_exec, replace_all, replace_chars, second_field,
    slice_chars, starts_with, string_from_chars, text_lines,
};
use crate::formats::{json_document, parse_json, parse_toml, toml_document};
use crate::workspace::{Workspace, globbed, read_file};

verus! {

/// A detection rule: some file matching the glob `file` exists in the project and,
/// when `key` is given, one of the matched files mentions `key`.
#[derive(Debug, Clone)]
pub struct DetectRule {
    pub file: String,
    pub key: Option<String>,
}

/// A value read from a project file: the string under `key` in `file`, renamed through
/// `map` when `map` has an entry for it.
#[derive(Debug, Clone)]
pub struct VarRule {
    pub file: String,
    pub key: String,
    pub map: Vec<(String, String)>,
}

/// A Dockerfile line: given literally, or a template whose `${var}` is filled from a
/// project file.
#[derive(Debug, Clone)]
pub enum LayerCmd {
    Literal(String),
    Templated { cmd: String, var: VarRule },
}

/// A node in a board's toolchain tree.
#[derive(Debug)]
pub struct Toolchain {
    pub name: String,
    pub detect: Vec<DetectRule>,
    pub layer: Vec<LayerCmd>,
    pub default_cmd: Option<String>,
    pub sub: Vec<Toolchain>,
}

/// A recipe: what a container image is built from and what runs in it.
#[derive(Debug, Clone)]
pub struct Recipe {
    /// Path label, e.g. `"rust → cargo → rustc → thumbv6mnonenabi"`.
    pub label: String,
    /// Full Dockerfile content: the accumulated layer lines verbatim.
    pub dockerfile: String,
    /// Default command to run inside the container (typically the build command).
    pub default_cmd: String,
}

/// A board and the toolchains it can be built with.
#[derive(Debug)]
pub struct Board {
    pub name: String,
    pub toolchains: Vec<Toolchain>,
}

/// What a detection rule says.
pub ghost struct DetectView {
    pub file: Seq<char>,
    pub key: Option<Seq<char>>,
}

/// What a variable rule says.
pub ghost struct VarView {
    pub file: Seq<char>,
    pub key: Seq<char>,
    pub map: Seq<(Seq<char>, Seq<char>)>,
}

/// What a layer says.
pub ghost enum LayerView {
    Literal(Seq<char>),
    Templated { cmd: Seq<char>, var: VarView },
}

/// The text of an optional string.
pub open spec fn opt_view(o: Option<String>) -> Option<Seq<char>> {
    match o {
        Some(s) => Some(s@),
        None => None,
    }
}

impl View for DetectRule {
    type V = DetectView;

    open spec fn view(&self) -> DetectView {
        DetectView { file: self.file@, key: opt_view(self.key) }
    }
}

impl View for VarRule {
    type V = VarView;

    open spec fn view(&self) -> VarView {
        VarView { file: self.file@, key: self.key@, map: self.map@.map_values(|e: (String, String)| (e.0@, e.1@)) }
    }
}

impl View for LayerCmd {
    type V = LayerView;

    open spec fn view(&self) -> LayerView {
        match self {
            LayerCmd::Literal(s) => LayerView::Literal(s@),
            LayerCmd::Templated { cmd, var } => LayerView::Templated { cmd: cmd@, var: var@ },
        }
    }
}

/// The text of a recipe.
pub ghost struct RecipeModel {
    pub label: Seq<char>,
    pub dockerfile: Seq<char>,
    pub default_cmd: Seq<char>,
}

impl View for Recipe {
    type V = RecipeModel;

    open spec fn view(&self) -> RecipeModel {
        RecipeModel { label: self.label@, dockerfile: self.dockerfile@, default_cmd: self.default_cmd@ }
    }
}

// ---------------------------------------------------------------------------
// Detection and layers
// ---------------------------------------------------------------------------

/// The file text mentions `key`: in its TOML document if it parses as TOML, else in its
/// JSON document if it parses as JSON, else somewhere in the raw text.
pub open spec fn content_mentions(text: Seq<char>, key: Seq<char>) -> bool {
    match toml_document(text) {
        Some(d) => mentions(d, key),
        None => match json_document(text) {
            Some(d) => mentions(d, key),
            None => has_substring(text, key),
        },
    }
}

/// A matched file that could be read and mentions `key`.
pub open spec fn matched_file_mentions(f: Option<String>, key: Seq<char>) -> bool {
    match f {
        Some(text) => content_mentions(text@, key),
        None => false,
    }
}

/// The rule holds in `ws`: its pattern matched some file and, if it has a key, some
/// matched and readable file mentions the key.
pub open spec fn rule_holds(rule: DetectRule, ws: Workspace) -> bool {
    let files = globbed(ws.matches@, rule.file@);
    &&& files.len() > 0
    &&& match rule.key {
        None => true,
        Some(k) => exists|j: int|
            0 <= j < files.len() && matched_file_mentions(#[trigger] files[j], k@),
    }
}

/// All of the rules hold in `ws`.
pub open spec fn detect_holds(rules: Seq<DetectRule>, ws: Workspace) -> bool {
    forall|i: int| 0 <= i < rules.len() ==> rule_holds(#[trigger] rules[i], ws)
}

/// The value under `k` in a string-to-string map (its first entry with that key).
pub open spec fn pairs_get(map: Seq<(String, String)>, k: Seq<char>) -> Option<Seq<char>>
    decreases map.len(),
{
    if map.len() == 0 {
        None
    } else if map[0].0@ == k {
        Some(map[0].1@)
    } else {
        pairs_get(map.drop_first(), k)
    }
}

/// The string found for `key` in the TOML document that the file text denotes, else in
/// its JSON document; none if it is neither.
pub open spec fn raw_var(text: Seq<char>, key: Seq<char>) -> Option<Seq<char>> {
    match toml_document(text) {
        Some(d) => lookup(d, key),
        None => match json_document(text) {
            Some(d) => lookup(d, key),
            None => None,
        },
    }
}

/// The value that `rule` reads from `ws`, after renaming through its map.
pub open spec fn var_value(rule: VarRule, ws: Workspace) -> Option<Seq<char>> {
    match read_file(ws.reads@, rule.file@) {
        None => None,
        Some(c) => match raw_var(c@, rule.key@) {
            None => None,
            Some(raw) => Some(
                match pairs_get(rule.map@, raw) {
                    Some(renamed) => renamed,
                    None => raw,
                },
            ),
        },
    }
}

/// The placeholder that a templated layer line fills.
pub open spec fn placeholder() -> Seq<char> {
    "${var}"@
}

/// The fallback value of a template variable that is not found.
pub open spec fn fallback_version() -> Seq<char> {
    "latest"@
}

/// The Dockerfile line that `cmd` gives in `ws`.
pub open spec fn layer_text(cmd: LayerCmd, ws: Workspace) -> Seq<char> {
    match cmd {
        LayerCmd::Literal(s) => s@,
        LayerCmd::Templated { cmd, var } => replace_all(
            cmd@,
            placeholder(),
            match var_value(var, ws) {
                Some(v) => v,
                None => fallback_version(),
            },
        ),
    }
}

/// Whether the file text `content` mentions `key` (see [`content_mentions`]).
pub fn file_contains_key(content: &str, key: &str) -> (r: bool)
    ensures
        r == content_mentions(content@, key@),
{
    let k = key.to_owned();
    match parse_toml(content) {
        Some(d) => d.mentions(&k),
        None => match parse_json(content) {
            Some(d) => d.mentions(&k),
            None => str_contains(content, key),
        },
    }
}

/// Whether one detection rule holds in `ws`.
fn rule_matches(rule: &DetectRule, ws: &Workspace) -> (r: bool)
    ensures
        r == rule_holds(*rule, *ws),
{
    let files = match ws.globbed(&rule.file) {
        Some(files) => files,
        None => {
            return false;
        },
    };
    if files.len() == 0 {
        return false;
    }
    match &rule.key {
        None => true,
        Some(key) => {
            let mut j: usize = 0;
            while j < files.len()
                invariant
                    0 <= j <= files.len(),
                    files@ == globbed(ws.matches@, rule.file@),
                    files@.len() > 0,
                    rule.key == Some(*key),
                    forall|i: int|
                        0 <= i < j ==> !matched_file_mentions(#[trigger] files@[i], key@),
                decreases files.len() - j,
            {
                match &files[j] {
                    Some(c) => {
                        if file_contains_key(c.as_str(), key.as_str()) {
                            assert(matched_file_mentions(files@[j as int], key@));
                            return true;
                        }
                    },
                    None => {},
                }
                j = j + 1;
            }
            false
        },
    }
}

/// Whether all of `rules` hold in `ws`.
pub fn matches_detect(rules: &Vec<DetectRule>, ws: &Workspace) -> (r: bool)
    ensures
        r == detect_holds(rules@, *ws),
{
    let mut i: usize = 0;
    while i < rules.len()
        invariant
            0 <= i <= rules.len(),
            forall|k: int| 0 <= k < i ==> rule_holds(#[trigger] rules@[k], *ws),
        decreases rules.len() - i,
    {
        if !rule_matches(&rules[i], ws) {
            return false;
        }
        i = i + 1;
    }
    true
}

/// The value under `k` in a string-to-string map (see [`pairs_get`]).
fn map_get<'a>(map: &'a Vec<(String, String)>, k: &String) -> (r: Option<&'a String>)
    ensures
        r matches Some(v) ==> pairs_get(map@, k@) == Some(v@),
        r is None ==> pairs_get(map@, k@) is None,
{
    let mut i: usize = 0;
    assert(map@.skip(0) =~= map@);
    while i < map.len()
        invariant
            0 <= i <= map.len(),
            pairs_get(map@, k@) == pairs_get(map@.skip(i as int), k@),
        decreases map.len() - i,
    {
        assert(map@.skip(i as int).drop_first() =~= map@.skip(i + 1));
        if map[i].0 == *k {
            return Some(&map[i].1);
        }
        i = i + 1;
    }
    None
}

/// The value that `rule` reads from `ws` (see [`var_value`]).
pub fn resolve_var(rule: &VarRule, ws: &Workspace) -> (r: Option<String>)
    ensures
        r matches Some(s) ==> var_value(*rule, *ws) == Some(s@),
        r is None ==> var_value(*rule, *ws) is None,
{
    let content = match ws.read(&rule.file) {
        Some(c) => c,
        None => {
            return None;
        },
    };
    let raw = match parse_toml(content.as_str()) {
        Some(d) => d.lookup(&rule.key),
        None => match parse_json(content.as_str()) {
            Some(d) => d.lookup(&rule.key),
            None => None,
        },
    };
    match raw {
        None => None,
        Some(raw) => match map_get(&rule.map, &raw) {
            Some(renamed) => Some(renamed.clone()),
            None => Some(raw),
        },
    }
}

/// The Dockerfile line that `cmd` gives in `ws` (see [`layer_text`]).
pub fn resolve_layer(cmd: &LayerCmd, ws: &Workspace) -> (r: String)
    ensures
        r@ == layer_text(*cmd, *ws),
{
    match cmd {
        LayerCmd::Literal(s) => s.clone(),
        LayerCmd::Templated { cmd, var } => {
            let value = match resolve_var(var, ws) {
                Some(v) => v,
                None => "latest".to_owned(),
            };
            let pat = chars_of("${var}");
            proof {
                reveal_strlit("${var}");
            }
            let text = chars_of(cmd.as_str());
            let rep = chars_of(value.as_str());
            let out = replace_chars(&text, &pat, &rep);
            string_from_chars(&out)
        },
    }
}


// ---------------------------------------------------------------------------
// Toolchain trees
// ---------------------------------------------------------------------------

/// The views of a sequence of strings.
pub open spec fn string_views(v: Seq<String>) -> Seq<Seq<char>> {
    v.map_values(|s: String| s@)
}

/// What separates the names in a recipe label.
pub open spec fn label_sep() -> Seq<char> {
    " → "@
}

/// What separates the lines of a Dockerfile.
pub open spec fn newline() -> Seq<char> {
    "\n"@
}

/// The Dockerfile lines that a node's layers give in `ws`.
pub open spec fn layer_lines(layers: Seq<LayerCmd>, ws: Workspace) -> Seq<Seq<char>> {
    layers.map_values(|l: LayerCmd| layer_text(l, ws))
}

/// The recipes that the trees `tcs` give, in order, below a node whose path of names is
/// `path` and whose accumulated Dockerfile lines are `lines`. With `run_detect`, a node
/// whose detection rules do not all hold is skipped with everything below it.
pub open spec fn leaves(
    tcs: Seq<Toolchain>,
    path: Seq<Seq<char>>,
    lines: Seq<Seq<char>>,
    ws: Workspace,
    run_detect: bool,
) -> Seq<RecipeModel>
    decreases tcs,
{
    if tcs.len() == 0 {
        seq![]
    } else {
        leaves(tcs.drop_last(), path, lines, ws, run_detect) + node_leaves(
            tcs.last(),
            path,
            lines,
            ws,
            run_detect,
        )
    }
}

/// The recipes that the tree `tc` gives: a node with a command is a leaf, whose label
/// joins the names on its path and whose Dockerfile joins the layer lines accumulated
/// from the root down; a node without one passes its path and lines on to its children.
pub open spec fn node_leaves(
    tc: Toolchain,
    path: Seq<Seq<char>>,
    lines: Seq<Seq<char>>,
    ws: Workspace,
    run_detect: bool,
) -> Seq<RecipeModel>
    decreases tc,
{
    if run_detect && !detect_holds(tc.detect@, ws) {
        seq![]
    } else {
        let p = path.push(tc.name@);
        let l = lines + layer_lines(tc.layer@, ws);
        match tc.default_cmd {
            Some(c) => seq![
                RecipeModel { label: join(p, label_sep()), dockerfile: join(l, newline()), default_cmd: c@ },
            ],
            None => leaves(tc.sub@, p, l, ws, run_detect),
        }
    }
}

/// The recipes below the trees `toolchains` (see [`leaves`]).
fn collect_leaves(
    toolchains: &Vec<Toolchain>,
    path: &Vec<String>,
    lines: &Vec<String>,
    ws: &Workspace,
    run_detect: bool,
) -> (res: Vec<Recipe>)
    ensures
        res@.map_values(|r: Recipe| r@) == leaves(
            toolchains@,
            string_views(path@),
            string_views(lines@),
            *ws,
            run_detect,
        ),
    decreases toolchains@,
{
    let ghost p0 = string_views(path@);
    let ghost l0 = string_views(lines@);
    let mut results: Vec<Recipe> = Vec::new();
    let mut i: usize = 0;
    while i < toolchains.len()
        invariant
            0 <= i <= toolchains.len(),
            p0 == string_views(path@),
            l0 == string_views(lines@),
            results@.map_values(|r: Recipe| r@) == leaves(
                toolchains@.take(i as int),
                p0,
                l0,
                *ws,
                run_detect,
            ),
        decreases toolchains.len() - i,
    {
        let tc = &toolchains[i];
        let ghost before = results@.map_values(|r: Recipe| r@);
        assert(toolchains@.take(i + 1).drop_last() =~= toolchains@.take(i as int));
        assert(toolchains@.take(i + 1).last() == *tc);
        if !(run_detect && !matches_detect(&tc.detect, ws)) {
            let mut cur_path = clone_strings(path);
            cur_path.push(tc.name.clone());
            assert(string_views(cur_path@) =~= p0.push(tc.name@));
            let mut cur_lines = clone_strings(lines);
            let mut k: usize = 0;
            while k < tc.layer.len()
                invariant
                    0 <= k <= tc.layer.len(),
                    string_views(cur_lines@) == l0 + layer_lines(tc.layer@.take(k as int), *ws),
                decreases tc.layer.len() - k,
            {
                let line = resolve_layer(&tc.layer[k], ws);
                let ghost old = cur_lines@;
                cur_lines.push(line);
                assert(string_views(cur_lines@) =~= string_views(old).push(line@));
                assert(layer_lines(tc.layer@.take(k + 1), *ws) =~= layer_lines(
                    tc.layer@.take(k as int),
                    *ws,
                ).push(layer_text(tc.layer@[k as int], *ws)));
                k = k + 1;
            }
            assert(tc.layer@.take(tc.layer.len() as int) =~= tc.layer@);
            match &tc.default_cmd {
                Some(c) => {
                    let recipe = Recipe {
                        label: join_strings(&cur_path, " → "),
                        dockerfile: join_strings(&cur_lines, "\n"),
                        default_cmd: c.clone(),
                    };
                    results.push(recipe);
                    assert(results@.map_values(|r: Recipe| r@) =~= before + seq![recipe@]);
                    assert(node_leaves(*tc, p0, l0, *ws, run_detect) == seq![recipe@]);
                },
                None => {
                    proof {
                        let t = toolchains@[i as int];
                        assert(decreases_to!(toolchains@ => t));
                        assert(decreases_to!(t => t.sub));
                        assert(decreases_to!(t.sub => t.sub@));
                    }
                    let mut below = collect_leaves(&tc.sub, &cur_path, &cur_lines, ws, run_detect);
                    let ghost below_v = below@.map_values(|r: Recipe| r@);
                    results.append(&mut below);
                    assert(results@.map_values(|r: Recipe| r@) =~= before + below_v);
                    assert(node_leaves(*tc, p0, l0, *ws, run_detect) == below_v);
                },
            }
        } else {
            assert(node_leaves(*tc, p0, l0, *ws, run_detect) =~= seq![]);
            assert(before + seq![] =~= before);
        }
        i = i + 1;
    }
    assert(toolchains@.take(toolchains.len() as int) =~= toolchains@);
    results
}


// ---------------------------------------------------------------------------
// Boards
// ---------------------------------------------------------------------------

/// The recipes whose detection holds in `ws`, in tree order.
pub open spec fn resolved(board: Board, ws: Workspace) -> Seq<RecipeModel> {
    leaves(board.toolchains@, seq![], seq![], ws, true)
}

/// All recipes of the board, detection aside, in tree order.
pub open spec fn every_recipe(board: Board, ws: Workspace) -> Seq<RecipeModel> {
    leaves(board.toolchains@, seq![], seq![], ws, false)
}

/// A recipe answers to `name`: its whole label, or the last name in its label.
pub open spec fn answers_to(r: RecipeModel, name: Seq<char>) -> bool {
    r.label == name || last_segment(r.label, label_sep()) == name
}

/// The first recipe that answers to `name`.
pub open spec fn first_answering(rs: Seq<RecipeModel>, name: Seq<char>) -> Option<RecipeModel>
    decreases rs.len(),
{
    if rs.len() == 0 {
        None
    } else if answers_to(rs[0], name) {
        Some(rs[0])
    } else {
        first_answering(rs.drop_first(), name)
    }
}

/// The recipe that a request for `name` selects: the first detected one that answers
/// to it, else the first of all recipes that does.
pub open spec fn pick(board: Board, name: Seq<char>, ws: Workspace) -> Option<RecipeModel> {
    match first_answering(resolved(board, ws), name) {
        Some(r) => Some(r),
        None => first_answering(every_recipe(board, ws), name),
    }
}

/// The labels of `rs`, in order.
pub open spec fn labels(rs: Seq<RecipeModel>) -> Seq<Seq<char>> {
    rs.map_values(|r: RecipeModel| r.label)
}

/// What separates the labels listed in a "not found" error.
pub open spec fn list_sep() -> Seq<char> {
    ", "@
}

/// No recipe of the board answers to `name`.
#[derive(Debug, Clone)]
pub struct RecipeNotFound {
    /// The name that was asked for.
    pub name: String,
    /// The board's name.
    pub board: String,
    /// The labels of all the board's recipes, separated by `", "`.
    pub available: String,
}

impl RecipeNotFound {
    /// The error's text.
    pub open spec fn text(self) -> Seq<char> {
        "Recipe '"@ + self.name@ + "' not found for '"@ + self.board@ + "'. Available: "@
            + self.available@
    }

    /// The error's text (see [`RecipeNotFound::text`]).
    pub fn message(&self) -> (m: String)
        ensures
            m@ == self.text(),
    {
        let mut m = "Recipe '".to_owned();
        m.append(self.name.as_str());
        m.append("' not found for '");
        m.append(self.board.as_str());
        m.append("'. Available: ");
        m.append(self.available.as_str());
        m
    }
}

/// Index of the first recipe in `rs` that answers to `name`.
fn find_answering(rs: &Vec<Recipe>, name: &String) -> (r: Option<usize>)
    ensures
        r matches Some(i) ==> i < rs.len() && first_answering(rs@.map_values(|x: Recipe| x@), name@)
            == Some(rs@[i as int]@),
        r is None ==> first_answering(rs@.map_values(|x: Recipe| x@), name@) is None,
{
    let ghost views = rs@.map_values(|x: Recipe| x@);
    let sep = chars_of(" → ");
    proof {
        reveal_strlit(" → ");
    }
    let mut i: usize = 0;
    assert(views.skip(0) =~= views);
    while i < rs.len()
        invariant
            0 <= i <= rs.len(),
            views == rs@.map_values(|x: Recipe| x@),
            sep@ == label_sep(),
            sep@.len() > 0,
            first_answering(views, name@) == first_answering(views.skip(i as int), name@),
        decreases rs.len() - i,
    {
        assert(views.skip(i as int).drop_first() =~= views.skip(i + 1));
        assert(views.skip(i as int)[0] == rs@[i as int]@);
        let label = chars_of(rs[i].label.as_str());
        let last = string_from_chars(&last_segment_chars(&label, &sep));
        if rs[i].label == *name || last == *name {
            return Some(i);
        }
        i = i + 1;
    }
    None
}

/// The labels of `rs`, in order.
pub(crate) fn labels_of(rs: &Vec<Recipe>) -> (res: Vec<String>)
    ensures
        string_views(res@) == labels(rs@.map_values(|x: Recipe| x@)),
{
    let mut res: Vec<String> = Vec::new();
    let mut i: usize = 0;
    while i < rs.len()
        invariant
            0 <= i <= rs.len(),
            string_views(res@) == labels(rs@.take(i as int).map_values(|x: Recipe| x@)),
        decreases rs.len() - i,
    {
        let ghost old = res@;
        let l = rs[i].label.clone();
        res.push(l);
        assert(string_views(res@) =~= string_views(old).push(l@));
        assert(labels(rs@.take(i + 1).map_values(|x: Recipe| x@)) =~= labels(
            rs@.take(i as int).map_values(|x: Recipe| x@),
        ).push(rs@[i as int].label@));
        i = i + 1;
    }
    assert(rs@.take(rs.len() as int) =~= rs@);
    res
}

impl Board {
    /// The recipes whose detection holds in the workspace (see [`resolved`]).
    pub fn resolve_recipes(&self, ws: &Workspace) -> (res: Vec<Recipe>)
        ensures
            res@.map_values(|r: Recipe| r@) == resolved(*self, *ws),
    {
        let empty: Vec<String> = Vec::new();
        assert(string_views(empty@) =~= seq![]);
        collect_leaves(&self.toolchains, &empty, &empty, ws, true)
    }

    /// All recipes of the board, detection aside (see [`every_recipe`]).
    pub fn all_recipes(&self, ws: &Workspace) -> (res: Vec<Recipe>)
        ensures
            res@.map_values(|r: Recipe| r@) == every_recipe(*self, *ws),
    {
        let empty: Vec<String> = Vec::new();
        assert(string_views(empty@) =~= seq![]);
        collect_leaves(&self.toolchains, &empty, &empty, ws, false)
    }

    /// The recipe that `name` selects (see [`pick`]); when none answers to it, the error
    /// names it, the board, and the labels of all recipes.
    pub fn get_recipe_by_path(&self, name: &str, ws: &Workspace) -> (res: Result<
        Recipe,
        RecipeNotFound,
    >)
        ensures
            match pick(*self, name@, *ws) {
                Some(r) => res matches Ok(found) && found@ == r,
                None => res matches Err(e) && e.name@ == name@ && e.board@ == self.name@
                    && e.available@ == join(labels(every_recipe(*self, *ws)), list_sep()),
            },
    {
        let wanted = name.to_owned();
        let mut detected = self.resolve_recipes(ws);
        match find_answering(&detected, &wanted) {
            Some(i) => {
                return Ok(detected.remove(i));
            },
            None => {},
        }
        let mut all = self.all_recipes(ws);
        match find_answering(&all, &wanted) {
            Some(i) => Ok(all.remove(i)),
            None => {
                let available = join_strings(&labels_of(&all), ", ");
                Err(RecipeNotFound { name: wanted, board: self.name.clone(), available })
            },
        }
    }
}

// ---------------------------------------------------------------------------
// What the rules look at
// ---------------------------------------------------------------------------

/// The glob patterns of the detection rules in the trees `tcs`, in tree order.
pub open spec fn detect_files(tcs: Seq<Toolchain>) -> Seq<Seq<char>>
    decreases tcs,
{
    if tcs.len() == 0 {
        seq![]
    } else {
        detect_files(tcs.drop_last()) + node_detect_files(tcs.last())
    }
}

/// The glob patterns of the detection rules in the tree `tc`, its own first.
pub open spec fn node_detect_files(tc: Toolchain) -> Seq<Seq<char>>
    decreases tc,
{
    tc.detect@.map_values(|r: DetectRule| r.file@) + detect_files(tc.sub@)
}

/// The files that the templated layers among `layers` read, in order.
pub open spec fn layer_files(layers: Seq<LayerCmd>) -> Seq<Seq<char>>
    decreases layers.len(),
{
    if layers.len() == 0 {
        seq![]
    } else {
        layer_files(layers.drop_last()) + match layers.last() {
            LayerCmd::Templated { var, .. } => seq![var.file@],
            LayerCmd::Literal(_) => seq![],
        }
    }
}

/// The files that the templated layers in the trees `tcs` read, in tree order.
pub open spec fn var_files(tcs: Seq<Toolchain>) -> Seq<Seq<char>>
    decreases tcs,
{
    if tcs.len() == 0 {
        seq![]
    } else {
        var_files(tcs.drop_last()) + node_var_files(tcs.last())
    }
}

/// The files that the templated layers in the tree `tc` read, its own first.
pub open spec fn node_var_files(tc: Toolchain) -> Seq<Seq<char>>
    decreases tc,
{
    layer_files(tc.layer@) + var_files(tc.sub@)
}

/// The detection patterns in the trees `tcs` (see [`detect_files`]).
fn gather_detect_files(tcs: &Vec<Toolchain>) -> (r: Vec<String>)
    ensures
        string_views(r@) == detect_files(tcs@),
    decreases tcs@,
{
    let mut out: Vec<String> = Vec::new();
    let mut i: usize = 0;
    while i < tcs.len()
        invariant
            0 <= i <= tcs.len(),
            string_views(out@) == detect_files(tcs@.take(i as int)),
        decreases tcs.len() - i,
    {
        assert(tcs@.take(i + 1).drop_last() =~= tcs@.take(i as int));
        assert(tcs@.take(i + 1).last() == tcs@[i as int]);
        let tc = &tcs[i];
        let ghost before = string_views(out@);
        let mut k: usize = 0;
        while k < tc.detect.len()
            invariant
                0 <= k <= tc.detect.len(),
                string_views(out@) == before + tc.detect@.take(k as int).map_values(
                    |r: DetectRule| r.file@,
                ),
            decreases tc.detect.len() - k,
        {
            let ghost old = out@;
            let f = tc.detect[k].file.clone();
            out.push(f);
            assert(string_views(out@) =~= string_views(old).push(f@));
            assert(tc.detect@.take(k + 1).map_values(|r: DetectRule| r.file@) =~= tc.detect@.take(
                k as int,
            ).map_values(|r: DetectRule| r.file@).push(f@));
            k = k + 1;
        }
        assert(tc.detect@.take(tc.detect.len() as int) =~= tc.detect@);
        proof {
            let t = tcs@[i as int];
            assert(decreases_to!(tcs@ => t));
            assert(decreases_to!(t => t.sub));
            assert(decreases_to!(t.sub => t.sub@));
        }
        let ghost mid = string_views(out@);
        let mut below = gather_detect_files(&tc.sub);
        let ghost below_v = string_views(below@);
        out.append(&mut below);
        assert(string_views(out@) =~= mid + below_v);
        assert(string_views(out@) =~= before + node_detect_files(*tc));
        i = i + 1;
    }
    assert(tcs@.take(tcs.len() as int) =~= tcs@);
    out
}

/// The files that the templated layers in the trees `tcs` read (see [`var_files`]).
fn gather_var_files(tcs: &Vec<Toolchain>) -> (r: Vec<String>)
    ensures
        string_views(r@) == var_files(tcs@),
    decreases tcs@,
{
    let mut out: Vec<String> = Vec::new();
    let mut i: usize = 0;
    while i < tcs.len()
        invariant
            0 <= i <= tcs.len(),
            string_views(out@) == var_files(tcs@.take(i as int)),
        decreases tcs.len() - i,
    {
        assert(tcs@.take(i + 1).drop_last() =~= tcs@.take(i as int));
        assert(tcs@.take(i + 1).last() == tcs@[i as int]);
        let tc = &tcs[i];
        let ghost before = string_views(out@);
        let mut k: usize = 0;
        while k < tc.layer.len()
            invariant
                0 <= k <= tc.layer.len(),
                string_views(out@) == before + layer_files(tc.layer@.take(k as int)),
            decreases tc.layer.len() - k,
        {
            assert(tc.layer@.take(k + 1).drop_last() =~= tc.layer@.take(k as int));
            assert(tc.layer@.take(k + 1).last() == tc.layer@[k as int]);
            let ghost old = string_views(out@);
            match &tc.layer[k] {
                LayerCmd::Templated { var, .. } => {
                    let f = var.file.clone();
                    out.push(f);
                    assert(string_views(out@) =~= old.push(f@));
                },
                LayerCmd::Literal(_) => {
                    assert(old + seq![] =~= old);
                },
            }
            k = k + 1;
        }
        assert(tc.layer@.take(tc.layer.len() as int) =~= tc.layer@);
        proof {
            let t = tcs@[i as int];
            assert(decreases_to!(tcs@ => t));
            assert(decreases_to!(t => t.sub));
            assert(decreases_to!(t.sub => t.sub@));
        }
        let ghost mid = string_views(out@);
        let mut below = gather_var_files(&tc.sub);
        let ghost below_v = string_views(below@);
        out.append(&mut below);
        assert(string_views(out@) =~= mid + below_v);
        assert(string_views(out@) =~= before + node_var_files(*tc));
        i = i + 1;
    }
    assert(tcs@.take(tcs.len() as int) =~= tcs@);
    out
}

impl Board {
    /// The glob patterns that the board's detection rules look for, in tree order: what
    /// a [`Workspace`] is to hold the matches of.
    pub fn detect_patterns(&self) -> (r: Vec<String>)
        ensures
            string_views(r@) == detect_files(self.toolchains@),
    {
        gather_detect_files(&self.toolchains)
    }

    /// The files that the board's templated layers read, in tree order: what a
    /// [`Workspace`] is to hold the reads of.
    pub fn template_files(&self) -> (r: Vec<String>)
        ensures
            string_views(r@) == var_files(self.toolchains@),
    {
        gather_var_files(&self.toolchains)
    }
}

// ---------------------------------------------------------------------------
// Image tags
// ---------------------------------------------------------------------------

/// What begins the line naming the base image.
pub open spec fn from_prefix() -> Seq<char> {
    "FROM "@
}

/// The image named by the first line of `ls` that begins with `FROM `.
pub open spec fn first_image(ls: Seq<Seq<char>>) -> Option<Seq<char>>
    decreases ls.len(),
{
    if ls.len() == 0 {
        None
    } else if starts_with(ls[0], from_prefix()) {
        Some(ls[0].skip(from_prefix().len() as int))
    } else {
        first_image(ls.drop_first())
    }
}

/// The version of the base image of a Dockerfile: what follows the first `:` of the
/// image named by its first `FROM` line, up to a further `:`; `latest` if there is none.
pub open spec fn image_version(dockerfile: Seq<char>) -> Seq<char> {
    match first_image(text_lines(dockerfile)) {
        Some(img) => match second_field(img, ':') {
            Some(v) => v,
            None => fallback_version(),
        },
        None => fallback_version(),
    }
}

/// The registry used when none is given: images stay local.
pub open spec fn local_registry() -> Seq<char> {
    "fork-local"@
}

/// `{registry}/{board}/{label with " → " as "."}:{version}`.
pub open spec fn tag_of(registry: Option<Seq<char>>, board: Seq<char>, recipe: RecipeModel) -> Seq<char> {
    let ns = match registry {
        Some(r) => r,
        None => local_registry(),
    };
    ns + "/"@ + board + "/"@ + replace_all(recipe.label, label_sep(), "."@) + ":"@ + image_version(
        recipe.dockerfile,
    )
}

/// The base image version of a Dockerfile (see [`image_version`]).
fn dockerfile_version(dockerfile: &String) -> (v: String)
    ensures
        v@ == image_version(dockerfile@),
{
    let text = chars_of(dockerfile.as_str());
    let lines = lines_of(&text);
    let prefix = chars_of("FROM ");
    let ghost ls = lines@.map_values(|l: Vec<char>| l@);
    let mut i: usize = 0;
    assert(ls.skip(0) =~= ls);
    while i < lines.len()
        invariant
            0 <= i <= lines.len(),
            ls == lines@.map_values(|l: Vec<char>| l@),
            ls == text_lines(dockerfile@),
            prefix@ == from_prefix(),
            first_image(ls) == first_image(ls.skip(i as int)),
        decreases lines.len() - i,
    {
        assert(ls.skip(i as int).drop_first() =~= ls.skip(i + 1));
        assert(ls.skip(i as int)[0] == lines@[i as int]@);
        if matches_at_exec(&lines[i], &prefix, 0) {
            let line = &lines[i];
            let img = slice_chars(line, prefix.len(), line.len());
            assert(img@ == line@.skip(from_prefix().len() as int));
            return match index_of_char(&img, ':') {
                Some(j) => {
                    let rest = slice_chars(&img, j + 1, img.len());
                    assert(rest@ == img@.skip(j + 1));
                    let v = match index_of_char(&rest, ':') {
                        Some(k) => slice_chars(&rest, 0, k),
                        None => rest,
                    };
                    string_from_chars(&v)
                },
                None => "latest".to_owned(),
            };
        }
        i = i + 1;
    }
    "latest".to_owned()
}

/// The image tag of `recipe` for `board` (see [`tag_of`]); without a registry the image
/// is tagged for local use.
pub fn image_tag(registry: Option<&str>, board: &str, recipe: &Recipe) -> (tag: String)
    ensures
        tag@ == tag_of(
            match registry {
                Some(r) => Some(r@),
                None => None,
            },
            board@,
            recipe@,
        ),
{
    let mut tag = match registry {
        Some(r) => r.to_owned(),
        None => "fork-local".to_owned(),
    };
    let label = chars_of(recipe.label.as_str());
    let sep = chars_of(" → ");
    let dot = chars_of(".");
    proof {
        reveal_strlit(" → ");
    }
    let path_tag = string_from_chars(&replace_chars(&label, &sep, &dot));
    let version = dockerfile_version(&recipe.dockerfile);
    tag.append("/");
    tag.append(board);
    tag.append("/");
    tag.append(path_tag.as_str());
    tag.append(":");
    tag.append(version.as_str());
    tag
}

} // verus!
