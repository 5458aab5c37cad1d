//! Properties that relate the library's operations to each other.
use vstd::prelude::*;

use crate::docs::{child_recipes, detect_summary, table_recipes};
use crate::document::Document;
use crate::engine::{
    Board, DetectRule, LayerCmd, RecipeModel, Toolchain, VarRule, answers_to, content_mentions,
    detect_holds, every_recipe, first_answering, label_sep, layer_lines, layer_text, leaves,
    newline, node_leaves, pairs_get, pick, raw_var, resolved, rule_holds, var_value,
};
use crate::formats::{json_document, toml_document};
use crate::text::{has_substring, join, last_segment, matches_at, replace_all, starts_with};
use crate::workspace::{Workspace, globbed, read_file};

verus! {

proof fn lemma_concat_contains<A>(a: Seq<A>, b: Seq<A>, x: A)
    ensures
        (a + b).contains(x) <==> a.contains(x) || b.contains(x),
{
    if (a + b).contains(x) {
        let i = choose|i: int| 0 <= i < (a + b).len() && (a + b)[i] == x;
        if i >= a.len() {
            assert(b[i - a.len()] == x);
        }
    }
    if a.contains(x) {
        let i = choose|i: int| 0 <= i < a.len() && a[i] == x;
        assert((a + b)[i] == x);
    }
    if b.contains(x) {
        let i = choose|i: int| 0 <= i < b.len() && b[i] == x;
        assert((a + b)[a.len() + i] == x);
    }
}

proof fn lemma_leaves_within(
    tcs: Seq<Toolchain>,
    path: Seq<Seq<char>>,
    lines: Seq<Seq<char>>,
    ws: Workspace,
)
    ensures
        forall|x: RecipeModel|
            leaves(tcs, path, lines, ws, true).contains(x) ==> leaves(
                tcs,
                path,
                lines,
                ws,
                false,
            ).contains(x),
    decreases tcs,
{
    if tcs.len() > 0 {
        lemma_leaves_within(tcs.drop_last(), path, lines, ws);
        lemma_node_within(tcs.last(), path, lines, ws);
        assert forall|x: RecipeModel|
            leaves(tcs, path, lines, ws, true).contains(x) implies leaves(
                tcs,
                path,
                lines,
                ws,
                false,
            ).contains(x) by {
            lemma_concat_contains(
                leaves(tcs.drop_last(), path, lines, ws, true),
                node_leaves(tcs.last(), path, lines, ws, true),
                x,
            );
            lemma_concat_contains(
                leaves(tcs.drop_last(), path, lines, ws, false),
                node_leaves(tcs.last(), path, lines, ws, false),
                x,
            );
        }
    }
}

proof fn lemma_node_within(tc: Toolchain, path: Seq<Seq<char>>, lines: Seq<Seq<char>>, ws: Workspace)
    ensures
        forall|x: RecipeModel|
            node_leaves(tc, path, lines, ws, true).contains(x) ==> node_leaves(
                tc,
                path,
                lines,
                ws,
                false,
            ).contains(x),
    decreases tc,
{
    if detect_holds(tc.detect@, ws) {
        if tc.default_cmd is None {
            let p = path.push(tc.name@);
            let l = lines + layer_lines(tc.layer@, ws);
            lemma_leaves_within(tc.sub@, p, l, ws);
            assert(node_leaves(tc, path, lines, ws, true) == leaves(tc.sub@, p, l, ws, true));
            assert(node_leaves(tc, path, lines, ws, false) == leaves(tc.sub@, p, l, ws, false));
        } else {
            assert(node_leaves(tc, path, lines, ws, true) == node_leaves(tc, path, lines, ws, false));
        }
    } else {
        assert(node_leaves(tc, path, lines, ws, true) =~= seq![]);
    }
}

/// Detection only narrows: every recipe that `resolve_recipes` gives is also among those
/// that `all_recipes` gives.
pub proof fn lemma_resolved_within_all(board: Board, ws: Workspace)
    ensures
        forall|r: RecipeModel|
            resolved(board, ws).contains(r) ==> every_recipe(board, ws).contains(r),
{
    lemma_leaves_within(board.toolchains@, seq![], seq![], ws);
}

proof fn lemma_layers_same_reads(layers: Seq<LayerCmd>, ws1: Workspace, ws2: Workspace)
    requires
        ws1.reads@ == ws2.reads@,
    ensures
        layer_lines(layers, ws1) == layer_lines(layers, ws2),
{
    assert forall|i: int| 0 <= i < layers.len() implies layer_text(layers[i], ws1) == layer_text(
        layers[i],
        ws2,
    ) by {
        match layers[i] {
            LayerCmd::Templated { cmd, var } => {
                assert(var_value(var, ws1) == var_value(var, ws2));
            },
            _ => {},
        }
    }
    assert(layer_lines(layers, ws1) =~= layer_lines(layers, ws2));
}

proof fn lemma_leaves_same_reads(
    tcs: Seq<Toolchain>,
    path: Seq<Seq<char>>,
    lines: Seq<Seq<char>>,
    ws1: Workspace,
    ws2: Workspace,
)
    requires
        ws1.reads@ == ws2.reads@,
    ensures
        leaves(tcs, path, lines, ws1, false) == leaves(tcs, path, lines, ws2, false),
    decreases tcs,
{
    if tcs.len() > 0 {
        lemma_leaves_same_reads(tcs.drop_last(), path, lines, ws1, ws2);
        lemma_node_same_reads(tcs.last(), path, lines, ws1, ws2);
    }
}

proof fn lemma_node_same_reads(
    tc: Toolchain,
    path: Seq<Seq<char>>,
    lines: Seq<Seq<char>>,
    ws1: Workspace,
    ws2: Workspace,
)
    requires
        ws1.reads@ == ws2.reads@,
    ensures
        node_leaves(tc, path, lines, ws1, false) == node_leaves(tc, path, lines, ws2, false),
    decreases tc,
{
    lemma_layers_same_reads(tc.layer@, ws1, ws2);
    if tc.default_cmd is None {
        lemma_leaves_same_reads(
            tc.sub@,
            path.push(tc.name@),
            lines + layer_lines(tc.layer@, ws1),
            ws1,
            ws2,
        );
    }
}

/// `all_recipes` ignores detection: two workspaces whose file reads agree give the same
/// recipes, whatever their detection patterns matched.
pub proof fn lemma_all_recipes_ignore_detection(board: Board, ws1: Workspace, ws2: Workspace)
    requires
        ws1.reads@ == ws2.reads@,
    ensures
        every_recipe(board, ws1) == every_recipe(board, ws2),
{
    lemma_leaves_same_reads(board.toolchains@, seq![], seq![], ws1, ws2);
}


/// Every detection rule in the trees `tcs` holds in `ws`.
pub open spec fn tree_detects(tcs: Seq<Toolchain>, ws: Workspace) -> bool
    decreases tcs,
{
    tcs.len() == 0 || (tree_detects(tcs.drop_last(), ws) && node_detects(tcs.last(), ws))
}

/// Every detection rule in the tree `tc` holds in `ws`.
pub open spec fn node_detects(tc: Toolchain, ws: Workspace) -> bool
    decreases tc,
{
    detect_holds(tc.detect@, ws) && tree_detects(tc.sub@, ws)
}

proof fn lemma_leaves_all_detect(
    tcs: Seq<Toolchain>,
    path: Seq<Seq<char>>,
    lines: Seq<Seq<char>>,
    ws: Workspace,
)
    requires
        tree_detects(tcs, ws),
    ensures
        leaves(tcs, path, lines, ws, true) == leaves(tcs, path, lines, ws, false),
    decreases tcs,
{
    if tcs.len() > 0 {
        lemma_leaves_all_detect(tcs.drop_last(), path, lines, ws);
        lemma_node_all_detect(tcs.last(), path, lines, ws);
    }
}

proof fn lemma_node_all_detect(tc: Toolchain, path: Seq<Seq<char>>, lines: Seq<Seq<char>>, ws: Workspace)
    requires
        node_detects(tc, ws),
    ensures
        node_leaves(tc, path, lines, ws, true) == node_leaves(tc, path, lines, ws, false),
    decreases tc,
{
    if tc.default_cmd is None {
        lemma_leaves_all_detect(tc.sub@, path.push(tc.name@), lines + layer_lines(tc.layer@, ws), ws);
    }
}

/// Where every detection rule of the board holds, detection removes nothing:
/// `resolve_recipes` and `all_recipes` give the same recipes.
pub proof fn lemma_detection_all_holds(board: Board, ws: Workspace)
    requires
        tree_detects(board.toolchains@, ws),
    ensures
        resolved(board, ws) == every_recipe(board, ws),
{
    lemma_leaves_all_detect(board.toolchains@, seq![], seq![], ws);
}

proof fn lemma_first_answering(rs: Seq<RecipeModel>, name: Seq<char>)
    ensures
        first_answering(rs, name) matches Some(r) ==> rs.contains(r) && answers_to(r, name),
        first_answering(rs, name) is None ==> forall|i: int|
            0 <= i < rs.len() ==> !answers_to(#[trigger] rs[i], name),
    decreases rs.len(),
{
    if rs.len() > 0 && !answers_to(rs[0], name) {
        lemma_first_answering(rs.drop_first(), name);
        if let Some(r) = first_answering(rs, name) {
            let i = choose|i: int| 0 <= i < rs.drop_first().len() && rs.drop_first()[i] == r;
            assert(rs[i + 1] == r);
        } else {
            assert forall|i: int| 0 <= i < rs.len() implies !answers_to(#[trigger] rs[i], name) by {
                if i > 0 {
                    assert(rs[i] == rs.drop_first()[i - 1]);
                }
            }
        }
    } else if rs.len() > 0 {
        assert(rs[0] == rs[0]);
    }
}

/// A request by name succeeds exactly when some recipe of the board answers to the
/// name, and what it selects is one of the board's recipes that does.
pub proof fn lemma_pick_iff_answering(board: Board, name: Seq<char>, ws: Workspace)
    ensures
        (pick(board, name, ws) is Some) <==> exists|i: int|
            0 <= i < every_recipe(board, ws).len() && answers_to(
                #[trigger] every_recipe(board, ws)[i],
                name,
            ),
        pick(board, name, ws) matches Some(r) ==> every_recipe(board, ws).contains(r)
            && answers_to(r, name),
{
    let det = resolved(board, ws);
    let all = every_recipe(board, ws);
    lemma_first_answering(det, name);
    lemma_first_answering(all, name);
    lemma_resolved_within_all(board, ws);
    if let Some(r) = first_answering(det, name) {
        assert(all.contains(r));
        let i = choose|i: int| 0 <= i < all.len() && all[i] == r;
        assert(answers_to(all[i], name));
    }
}

/// A template without the placeholder is left as it is.
pub proof fn lemma_replace_absent(s: Seq<char>, pat: Seq<char>, rep: Seq<char>)
    requires
        !has_substring(s, pat),
    ensures
        replace_all(s, pat, rep) == s,
    decreases s.len(),
{
    if pat.len() > 0 && s.len() >= pat.len() {
        assert(!matches_at(s, pat, 0));
        assert(s.subrange(0, pat.len() as int) =~= s.take(pat.len() as int));
        assert forall|i: int| !matches_at(s.skip(1), pat, i) by {
            if matches_at(s.skip(1), pat, i) {
                assert(s.skip(1).subrange(i, i + pat.len()) =~= s.subrange(i + 1, i + 1 + pat.len()));
                assert(matches_at(s, pat, i + 1));
            }
        }
        lemma_replace_absent(s.skip(1), pat, rep);
        assert(seq![s[0]] + s.skip(1) =~= s);
    }
}


/// `detect` is optional: a node without detection rules always matches.
pub proof fn lemma_no_rules_always_match(ws: Workspace)
    ensures
        detect_holds(seq![], ws),
{
}

// ---------------------------------------------------------------------------
// Detection as a filter over all recipes
// ---------------------------------------------------------------------------

/// The recipes of the trees `tcs`, detection aside and in tree order, each marked with
/// whether `ok` holds and every node on its path, from the roots of `tcs` down to the
/// leaf, has all of its detection rules hold in `ws`.
pub open spec fn marked_leaves(
    tcs: Seq<Toolchain>,
    path: Seq<Seq<char>>,
    lines: Seq<Seq<char>>,
    ws: Workspace,
    ok: bool,
) -> Seq<(RecipeModel, bool)>
    decreases tcs,
{
    if tcs.len() == 0 {
        seq![]
    } else {
        marked_leaves(tcs.drop_last(), path, lines, ws, ok) + marked_node(
            tcs.last(),
            path,
            lines,
            ws,
            ok,
        )
    }
}

/// The recipes of the tree `tc`, marked as in [`marked_leaves`].
pub open spec fn marked_node(
    tc: Toolchain,
    path: Seq<Seq<char>>,
    lines: Seq<Seq<char>>,
    ws: Workspace,
    ok: bool,
) -> Seq<(RecipeModel, bool)>
    decreases tc,
{
    let here = ok && detect_holds(tc.detect@, ws);
    let p = path.push(tc.name@);
    let l = lines + layer_lines(tc.layer@, ws);
    match tc.default_cmd {
        Some(c) => seq![
            (RecipeModel { label: join(p, label_sep()), dockerfile: join(l, newline()), default_cmd: c@ }, here),
        ],
        None => marked_leaves(tc.sub@, p, l, ws, here),
    }
}

/// The recipes of a marked list.
pub open spec fn models(ms: Seq<(RecipeModel, bool)>) -> Seq<RecipeModel> {
    ms.map_values(|m: (RecipeModel, bool)| m.0)
}

/// The recipes of a marked list that are marked, in order.
pub open spec fn kept(ms: Seq<(RecipeModel, bool)>) -> Seq<RecipeModel>
    decreases ms.len(),
{
    if ms.len() == 0 {
        seq![]
    } else {
        kept(ms.drop_last()) + if ms.last().1 {
            seq![ms.last().0]
        } else {
            seq![]
        }
    }
}

/// The board's recipes, marked with whether every node on their path detects.
pub open spec fn path_marks(board: Board, ws: Workspace) -> Seq<(RecipeModel, bool)> {
    marked_leaves(board.toolchains@, seq![], seq![], ws, true)
}

proof fn lemma_kept_concat(a: Seq<(RecipeModel, bool)>, b: Seq<(RecipeModel, bool)>)
    ensures
        kept(a + b) == kept(a) + kept(b),
    decreases b.len(),
{
    if b.len() == 0 {
        assert(a + b =~= a);
        assert(kept(a) + kept(b) =~= kept(a));
    } else {
        assert((a + b).drop_last() =~= a + b.drop_last());
        assert((a + b).last() == b.last());
        lemma_kept_concat(a, b.drop_last());
        let tail = if b.last().1 {
            seq![b.last().0]
        } else {
            Seq::<RecipeModel>::empty()
        };
        assert(kept(a) + kept(b.drop_last()) + tail =~= kept(a) + (kept(b.drop_last()) + tail));
    }
}

proof fn lemma_marked_leaves(
    tcs: Seq<Toolchain>,
    path: Seq<Seq<char>>,
    lines: Seq<Seq<char>>,
    ws: Workspace,
    ok: bool,
)
    ensures
        models(marked_leaves(tcs, path, lines, ws, ok)) == leaves(tcs, path, lines, ws, false),
        ok ==> kept(marked_leaves(tcs, path, lines, ws, ok)) == leaves(tcs, path, lines, ws, true),
        !ok ==> forall|i: int|
            0 <= i < marked_leaves(tcs, path, lines, ws, ok).len() ==> !(
            #[trigger] marked_leaves(tcs, path, lines, ws, ok)[i]).1,
        !ok ==> kept(marked_leaves(tcs, path, lines, ws, ok)) == Seq::<RecipeModel>::empty(),
    decreases tcs,
{
    if tcs.len() > 0 {
        let a = marked_leaves(tcs.drop_last(), path, lines, ws, ok);
        let b = marked_node(tcs.last(), path, lines, ws, ok);
        lemma_marked_leaves(tcs.drop_last(), path, lines, ws, ok);
        lemma_marked_node(tcs.last(), path, lines, ws, ok);
        assert(models(a + b) =~= models(a) + models(b));
        lemma_kept_concat(a, b);
        if !ok {
            assert forall|i: int| 0 <= i < (a + b).len() implies !(#[trigger] (a + b)[i]).1 by {
                if i >= a.len() {
                    assert((a + b)[i] == b[i - a.len()]);
                }
            }
            assert(kept(a) + kept(b) =~= Seq::<RecipeModel>::empty());
        }
    } else {
        assert(models(seq![]) =~= Seq::<RecipeModel>::empty());
    }
}

proof fn lemma_marked_node(
    tc: Toolchain,
    path: Seq<Seq<char>>,
    lines: Seq<Seq<char>>,
    ws: Workspace,
    ok: bool,
)
    ensures
        models(marked_node(tc, path, lines, ws, ok)) == node_leaves(tc, path, lines, ws, false),
        ok ==> kept(marked_node(tc, path, lines, ws, ok)) == node_leaves(tc, path, lines, ws, true),
        !ok ==> forall|i: int|
            0 <= i < marked_node(tc, path, lines, ws, ok).len() ==> !(
            #[trigger] marked_node(tc, path, lines, ws, ok)[i]).1,
        !ok ==> kept(marked_node(tc, path, lines, ws, ok)) == Seq::<RecipeModel>::empty(),
    decreases tc,
{
    let here = ok && detect_holds(tc.detect@, ws);
    let p = path.push(tc.name@);
    let l = lines + layer_lines(tc.layer@, ws);
    match tc.default_cmd {
        Some(c) => {
            let m = marked_node(tc, path, lines, ws, ok);
            assert(models(m) =~= node_leaves(tc, path, lines, ws, false));
            assert(m.drop_last() =~= Seq::<(RecipeModel, bool)>::empty());
            assert(kept(m.drop_last()) =~= Seq::<RecipeModel>::empty());
            assert(m.last().1 == here);
            if ok && !here {
                assert(node_leaves(tc, path, lines, ws, true) =~= Seq::<RecipeModel>::empty());
                assert(kept(m) =~= Seq::<RecipeModel>::empty());
            }
            if here {
                assert(kept(m) =~= node_leaves(tc, path, lines, ws, true));
            }
            if !ok {
                assert(kept(m) =~= Seq::<RecipeModel>::empty());
            }
        },
        None => {
            lemma_marked_leaves(tc.sub@, p, l, ws, here);
            if ok && !here {
                assert(node_leaves(tc, path, lines, ws, true) =~= Seq::<RecipeModel>::empty());
            }
        },
    }
}

/// Detection is a filter over all recipes: `all_recipes` gives the board's recipes in
/// tree order, and `resolve_recipes` gives, in the same order, exactly those of them
/// whose every node on the path from the top-level toolchain down to the leaf has all of
/// its detection rules hold (a node without rules holds).
pub proof fn lemma_resolved_is_detected_subsequence(board: Board, ws: Workspace)
    ensures
        models(path_marks(board, ws)) == every_recipe(board, ws),
        kept(path_marks(board, ws)) == resolved(board, ws),
{
    lemma_marked_leaves(board.toolchains@, seq![], seq![], ws, true);
}

/// A node whose detection rules do not all hold hides its whole subtree: detection gives
/// no recipe from it, whatever its descendants' own rules say, and every recipe below it
/// is marked as not detected.
pub proof fn lemma_failing_node_hides_subtree(
    tc: Toolchain,
    path: Seq<Seq<char>>,
    lines: Seq<Seq<char>>,
    ws: Workspace,
    ok: bool,
)
    requires
        !detect_holds(tc.detect@, ws),
    ensures
        node_leaves(tc, path, lines, ws, true) == Seq::<RecipeModel>::empty(),
        models(marked_node(tc, path, lines, ws, ok)) == node_leaves(tc, path, lines, ws, false),
        forall|i: int|
            0 <= i < marked_node(tc, path, lines, ws, ok).len() ==> !(
            #[trigger] marked_node(tc, path, lines, ws, ok)[i]).1,
{
    lemma_marked_node(tc, path, lines, ws, false);
    lemma_marked_node(tc, path, lines, ws, ok);
    assert(marked_node(tc, path, lines, ws, ok) == marked_node(tc, path, lines, ws, false));
}

// ---------------------------------------------------------------------------
// Detection rules do not shape the recipes
// ---------------------------------------------------------------------------

/// The trees `a` and `b` are the same but for their nodes' detection rules.
pub open spec fn same_but_detect(a: Seq<Toolchain>, b: Seq<Toolchain>) -> bool
    decreases a,
{
    &&& a.len() == b.len()
    &&& a.len() > 0 ==> same_but_detect(a.drop_last(), b.drop_last()) && node_same_but_detect(
        a.last(),
        b.last(),
    )
}

/// The nodes `x` and `y` are the same but for their and their descendants' detection
/// rules.
pub open spec fn node_same_but_detect(x: Toolchain, y: Toolchain) -> bool
    decreases x,
{
    &&& x.name@ == y.name@
    &&& x.layer@ == y.layer@
    &&& x.default_cmd == y.default_cmd
    &&& same_but_detect(x.sub@, y.sub@)
}

proof fn lemma_leaves_same_but_detect(
    a: Seq<Toolchain>,
    b: Seq<Toolchain>,
    path: Seq<Seq<char>>,
    lines: Seq<Seq<char>>,
    ws: Workspace,
)
    requires
        same_but_detect(a, b),
    ensures
        leaves(a, path, lines, ws, false) == leaves(b, path, lines, ws, false),
    decreases a,
{
    if a.len() > 0 {
        lemma_leaves_same_but_detect(a.drop_last(), b.drop_last(), path, lines, ws);
        lemma_node_same_but_detect(a.last(), b.last(), path, lines, ws);
    }
}

proof fn lemma_node_same_but_detect(
    x: Toolchain,
    y: Toolchain,
    path: Seq<Seq<char>>,
    lines: Seq<Seq<char>>,
    ws: Workspace,
)
    requires
        node_same_but_detect(x, y),
    ensures
        node_leaves(x, path, lines, ws, false) == node_leaves(y, path, lines, ws, false),
    decreases x,
{
    if x.default_cmd is None {
        lemma_leaves_same_but_detect(
            x.sub@,
            y.sub@,
            path.push(x.name@),
            lines + layer_lines(x.layer@, ws),
            ws,
        );
    }
}

/// `all_recipes` ignores detection rules: two boards whose toolchain trees differ only in
/// their nodes' `detect` lists give the same recipes, in the same order, with the same
/// labels, Dockerfiles and commands.
pub proof fn lemma_all_recipes_ignore_rules(b1: Board, b2: Board, ws: Workspace)
    requires
        same_but_detect(b1.toolchains@, b2.toolchains@),
    ensures
        every_recipe(b1, ws) == every_recipe(b2, ws),
{
    lemma_leaves_same_but_detect(b1.toolchains@, b2.toolchains@, seq![], seq![], ws);
}

// ---------------------------------------------------------------------------
// The shape of labels and Dockerfiles, and distinct labels
// ---------------------------------------------------------------------------

/// For each recipe of the trees `tcs`, in order, the names on its path from a root of
/// `tcs` down to its leaf.
pub open spec fn leaf_names(tcs: Seq<Toolchain>, ws: Workspace, run_detect: bool) -> Seq<Seq<Seq<char>>>
    decreases tcs,
{
    if tcs.len() == 0 {
        seq![]
    } else {
        leaf_names(tcs.drop_last(), ws, run_detect) + node_names(tcs.last(), ws, run_detect)
    }
}

/// For each recipe of the tree `tc`, the names on its path from `tc` down.
pub open spec fn node_names(tc: Toolchain, ws: Workspace, run_detect: bool) -> Seq<Seq<Seq<char>>>
    decreases tc,
{
    if run_detect && !detect_holds(tc.detect@, ws) {
        seq![]
    } else {
        match tc.default_cmd {
            Some(_) => seq![seq![tc.name@]],
            None => leaf_names(tc.sub@, ws, run_detect).map_values(
                |q: Seq<Seq<char>>| seq![tc.name@] + q,
            ),
        }
    }
}

/// For each recipe of the trees `tcs`, in order, the Dockerfile lines that the nodes on
/// its path from a root of `tcs` down to its leaf add.
pub open spec fn leaf_lines(tcs: Seq<Toolchain>, ws: Workspace, run_detect: bool) -> Seq<Seq<Seq<char>>>
    decreases tcs,
{
    if tcs.len() == 0 {
        seq![]
    } else {
        leaf_lines(tcs.drop_last(), ws, run_detect) + node_lines(tcs.last(), ws, run_detect)
    }
}

/// For each recipe of the tree `tc`, the Dockerfile lines that the nodes on its path
/// from `tc` down add.
pub open spec fn node_lines(tc: Toolchain, ws: Workspace, run_detect: bool) -> Seq<Seq<Seq<char>>>
    decreases tc,
{
    if run_detect && !detect_holds(tc.detect@, ws) {
        seq![]
    } else {
        match tc.default_cmd {
            Some(_) => seq![layer_lines(tc.layer@, ws)],
            None => leaf_lines(tc.sub@, ws, run_detect).map_values(
                |m: Seq<Seq<char>>| layer_lines(tc.layer@, ws) + m,
            ),
        }
    }
}

/// `r`'s label joins, with ` → `, `path` and the non-empty `names`, and its Dockerfile
/// joins, with newlines, `lines` and `added`.
pub open spec fn shaped(
    r: RecipeModel,
    path: Seq<Seq<char>>,
    lines: Seq<Seq<char>>,
    names: Seq<Seq<char>>,
    added: Seq<Seq<char>>,
) -> bool {
    &&& names.len() > 0
    &&& r.label == join(path + names, label_sep())
    &&& r.dockerfile == join(lines + added, newline())
}

proof fn lemma_leaves_shape(
    tcs: Seq<Toolchain>,
    path: Seq<Seq<char>>,
    lines: Seq<Seq<char>>,
    ws: Workspace,
    rd: bool,
)
    ensures
        leaf_names(tcs, ws, rd).len() == leaves(tcs, path, lines, ws, rd).len(),
        leaf_lines(tcs, ws, rd).len() == leaves(tcs, path, lines, ws, rd).len(),
        forall|i: int|
            0 <= i < leaves(tcs, path, lines, ws, rd).len() ==> #[trigger] shaped(
                leaves(tcs, path, lines, ws, rd)[i],
                path,
                lines,
                leaf_names(tcs, ws, rd)[i],
                leaf_lines(tcs, ws, rd)[i],
            ),
    decreases tcs,
{
    if tcs.len() > 0 {
        lemma_leaves_shape(tcs.drop_last(), path, lines, ws, rd);
        lemma_node_shape(tcs.last(), path, lines, ws, rd);
        let a = leaves(tcs.drop_last(), path, lines, ws, rd);
        let b = node_leaves(tcs.last(), path, lines, ws, rd);
        let na = leaf_names(tcs.drop_last(), ws, rd);
        let nb = node_names(tcs.last(), ws, rd);
        let la = leaf_lines(tcs.drop_last(), ws, rd);
        let lb = node_lines(tcs.last(), ws, rd);
        assert forall|i: int| 0 <= i < leaves(tcs, path, lines, ws, rd).len() implies #[trigger] shaped(
            leaves(tcs, path, lines, ws, rd)[i],
            path,
            lines,
            leaf_names(tcs, ws, rd)[i],
            leaf_lines(tcs, ws, rd)[i],
        ) by {
            if i < a.len() {
                assert((a + b)[i] == a[i]);
                assert((na + nb)[i] == na[i]);
                assert((la + lb)[i] == la[i]);
                assert(shaped(a[i], path, lines, na[i], la[i]));
            } else {
                assert((a + b)[i] == b[i - a.len()]);
                assert((na + nb)[i] == nb[i - a.len()]);
                assert((la + lb)[i] == lb[i - a.len()]);
                assert(shaped(b[i - a.len()], path, lines, nb[i - a.len()], lb[i - a.len()]));
            }
        }
    }
}

proof fn lemma_node_shape(
    tc: Toolchain,
    path: Seq<Seq<char>>,
    lines: Seq<Seq<char>>,
    ws: Workspace,
    rd: bool,
)
    ensures
        node_names(tc, ws, rd).len() == node_leaves(tc, path, lines, ws, rd).len(),
        node_lines(tc, ws, rd).len() == node_leaves(tc, path, lines, ws, rd).len(),
        forall|i: int|
            0 <= i < node_leaves(tc, path, lines, ws, rd).len() ==> #[trigger] shaped(
                node_leaves(tc, path, lines, ws, rd)[i],
                path,
                lines,
                node_names(tc, ws, rd)[i],
                node_lines(tc, ws, rd)[i],
            ),
    decreases tc,
{
    if !(rd && !detect_holds(tc.detect@, ws)) {
        let p = path.push(tc.name@);
        let ll = layer_lines(tc.layer@, ws);
        let l = lines + ll;
        match tc.default_cmd {
            Some(_) => {
                assert(p =~= path + seq![tc.name@]);
                assert(l =~= lines + ll);
            },
            None => {
                lemma_leaves_shape(tc.sub@, p, l, ws, rd);
                assert forall|i: int| 0 <= i < node_leaves(tc, path, lines, ws, rd).len() implies #[trigger] shaped(
                    node_leaves(tc, path, lines, ws, rd)[i],
                    path,
                    lines,
                    node_names(tc, ws, rd)[i],
                    node_lines(tc, ws, rd)[i],
                ) by {
                    let q = leaf_names(tc.sub@, ws, rd)[i];
                    let m = leaf_lines(tc.sub@, ws, rd)[i];
                    assert(node_names(tc, ws, rd)[i] == seq![tc.name@] + q);
                    assert(node_lines(tc, ws, rd)[i] == ll + m);
                    assert(p + q =~= path + (seq![tc.name@] + q));
                    assert(l + m =~= lines + (ll + m));
                    assert(shaped(leaves(tc.sub@, p, l, ws, rd)[i], p, l, q, m));
                }
            },
        }
    }
}

/// The names of the trees `tcs` are fit for labels: sibling names differ at every level
/// and no name holds the character `→`.
pub open spec fn names_ok(tcs: Seq<Toolchain>) -> bool
    decreases tcs,
{
    &&& forall|i: int, j: int|
        0 <= i < j < tcs.len() ==> (#[trigger] tcs[i]).name@ != (#[trigger] tcs[j]).name@
    &&& tcs.len() > 0 ==> names_ok(tcs.drop_last()) && node_names_ok(tcs.last())
}

/// The names of the tree `tc` are fit for labels (see [`names_ok`]).
pub open spec fn node_names_ok(tc: Toolchain) -> bool
    decreases tc,
{
    !tc.name@.contains('→') && names_ok(tc.sub@)
}

/// No part of `q` holds `→`.
pub open spec fn arrow_free(q: Seq<Seq<char>>) -> bool {
    forall|t: int| 0 <= t < q.len() ==> !(#[trigger] q[t]).contains('→')
}

proof fn lemma_leaf_names_distinct(tcs: Seq<Toolchain>, ws: Workspace, rd: bool)
    requires
        names_ok(tcs),
    ensures
        forall|i: int|
            0 <= i < leaf_names(tcs, ws, rd).len() ==> {
                &&& (#[trigger] leaf_names(tcs, ws, rd)[i]).len() > 0
                &&& arrow_free(leaf_names(tcs, ws, rd)[i])
                &&& exists|k: int|
                    0 <= k < tcs.len() && leaf_names(tcs, ws, rd)[i][0] == (#[trigger] tcs[k]).name@
            },
        forall|i: int, j: int|
            0 <= i < j < leaf_names(tcs, ws, rd).len() ==> (#[trigger] leaf_names(tcs, ws, rd)[i])
                != (#[trigger] leaf_names(tcs, ws, rd)[j]),
    decreases tcs,
{
    if tcs.len() > 0 {
        let d = tcs.drop_last();
        let na = leaf_names(d, ws, rd);
        let nb = node_names(tcs.last(), ws, rd);
        assert(names_ok(d)) by {
            assert forall|i: int, j: int| 0 <= i < j < d.len() implies (#[trigger] d[i]).name@
                != (#[trigger] d[j]).name@ by {
                assert(d[i] == tcs[i] && d[j] == tcs[j]);
            }
        }
        lemma_leaf_names_distinct(d, ws, rd);
        lemma_node_names_distinct(tcs.last(), ws, rd);
        let all = leaf_names(tcs, ws, rd);
        assert(all == na + nb);
        assert forall|i: int| 0 <= i < all.len() implies {
            &&& (#[trigger] all[i]).len() > 0
            &&& arrow_free(all[i])
            &&& exists|k: int| 0 <= k < tcs.len() && all[i][0] == (#[trigger] tcs[k]).name@
        } by {
            if i < na.len() {
                assert(all[i] == na[i]);
                let k = choose|k: int| 0 <= k < d.len() && na[i][0] == (#[trigger] d[k]).name@;
                assert(tcs[k] == d[k]);
            } else {
                assert(all[i] == nb[i - na.len()]);
                assert(tcs[tcs.len() - 1] == tcs.last());
            }
        }
        assert forall|i: int, j: int| 0 <= i < j < all.len() implies (#[trigger] all[i]) != (
        #[trigger] all[j]) by {
            if j < na.len() {
                assert(all[i] == na[i] && all[j] == na[j]);
            } else if i >= na.len() {
                assert(all[i] == nb[i - na.len()] && all[j] == nb[j - na.len()]);
            } else {
                assert(all[i] == na[i] && all[j] == nb[j - na.len()]);
                let k = choose|k: int| 0 <= k < d.len() && na[i][0] == (#[trigger] d[k]).name@;
                assert(tcs[k] == d[k]);
                assert(tcs[tcs.len() - 1] == tcs.last());
                assert(tcs[k].name@ != tcs[tcs.len() - 1].name@);
                assert(all[i][0] != all[j][0]);
            }
        }
    }
}

proof fn lemma_node_names_distinct(tc: Toolchain, ws: Workspace, rd: bool)
    requires
        node_names_ok(tc),
    ensures
        forall|i: int|
            0 <= i < node_names(tc, ws, rd).len() ==> {
                &&& (#[trigger] node_names(tc, ws, rd)[i]).len() > 0
                &&& arrow_free(node_names(tc, ws, rd)[i])
                &&& node_names(tc, ws, rd)[i][0] == tc.name@
            },
        forall|i: int, j: int|
            0 <= i < j < node_names(tc, ws, rd).len() ==> (#[trigger] node_names(tc, ws, rd)[i])
                != (#[trigger] node_names(tc, ws, rd)[j]),
    decreases tc,
{
    if !(rd && !detect_holds(tc.detect@, ws)) {
        match tc.default_cmd {
            Some(_) => {
                let q = seq![tc.name@];
                assert(node_names(tc, ws, rd) == seq![q]);
                assert(arrow_free(q)) by {
                    assert forall|t: int| 0 <= t < q.len() implies !(#[trigger] q[t]).contains('→') by {
                        assert(q[t] == tc.name@);
                    }
                }
            },
            None => {
                let sub = leaf_names(tc.sub@, ws, rd);
                lemma_leaf_names_distinct(tc.sub@, ws, rd);
                let all = node_names(tc, ws, rd);
                assert forall|i: int| 0 <= i < all.len() implies {
                    &&& (#[trigger] all[i]).len() > 0
                    &&& arrow_free(all[i])
                    &&& all[i][0] == tc.name@
                } by {
                    assert(all[i] == seq![tc.name@] + sub[i]);
                    assert forall|t: int| 0 <= t < all[i].len() implies !(
                    #[trigger] all[i][t]).contains('→') by {
                        if t > 0 {
                            assert(all[i][t] == sub[i][t - 1]);
                        }
                    }
                }
                assert forall|i: int, j: int| 0 <= i < j < all.len() implies (#[trigger] all[i])
                    != (#[trigger] all[j]) by {
                    assert(all[i] == seq![tc.name@] + sub[i]);
                    assert(all[j] == seq![tc.name@] + sub[j]);
                    assert(sub[i] != sub[j]);
                    if all[i] == all[j] {
                        assert(sub[i] =~= all[i].skip(1));
                        assert(sub[j] =~= all[j].skip(1));
                    }
                }
            },
        }
    }
}

/// Where `s` is `a`, the separator and `b`, and `b` holds no `→`, the last `→` of `s` is
/// the separator's.
proof fn lemma_join_injective(p: Seq<Seq<char>>, q: Seq<Seq<char>>)
    requires
        p.len() > 0,
        q.len() > 0,
        arrow_free(p),
        arrow_free(q),
        join(p, label_sep()) == join(q, label_sep()),
    ensures
        p == q,
    decreases p.len() + q.len(),
{
    reveal_strlit(" → ");
    let sep = label_sep();
    assert(sep.len() == 3 && sep[0] == ' ' && sep[1] == '→' && sep[2] == ' ');
    if p.len() == 1 && q.len() == 1 {
        assert(p =~= q);
    } else if p.len() == 1 {
        let a = join(q.drop_last(), sep);
        let s = a + sep + q.last();
        assert(s[a.len() + 1int] == '→');
        assert(p[0][a.len() + 1int] == '→');
        assert(p[0].contains('→'));
    } else if q.len() == 1 {
        let a = join(p.drop_last(), sep);
        let s = a + sep + p.last();
        assert(s[a.len() + 1int] == '→');
        assert(q[0][a.len() + 1int] == '→');
        assert(q[0].contains('→'));
    } else {
        let a1 = join(p.drop_last(), sep);
        let b1 = p.last();
        let a2 = join(q.drop_last(), sep);
        let b2 = q.last();
        let s = a1 + sep + b1;
        assert(s == a2 + sep + b2);
        assert(!b1.contains('→')) by {
            assert(p[p.len() - 1] == b1);
        }
        assert(!b2.contains('→')) by {
            assert(q[q.len() - 1] == b2);
        }
        if a1.len() < a2.len() {
            let k: int = a2.len() + 1int;
            assert((a2 + sep + b2)[k] == '→');
            if k == a1.len() + 2 {
                assert(s[k] == ' ');
            } else {
                assert(s[k] == b1[k - a1.len() - 3]);
                assert(b1.contains('→'));
            }
        } else if a2.len() < a1.len() {
            let k: int = a1.len() + 1int;
            assert(s[k] == '→');
            if k == a2.len() + 2 {
                assert((a2 + sep + b2)[k] == ' ');
            } else {
                assert((a2 + sep + b2)[k] == b2[k - a2.len() - 3]);
                assert(b2.contains('→'));
            }
        }
        assert(a1 =~= s.take(a1.len() as int));
        assert(a2 =~= (a2 + sep + b2).take(a2.len() as int));
        assert(b1 =~= s.skip(a1.len() + 3int));
        assert(b2 =~= (a2 + sep + b2).skip(a2.len() + 3int));
        assert(arrow_free(p.drop_last()));
        assert(arrow_free(q.drop_last()));
        lemma_join_injective(p.drop_last(), q.drop_last());
        assert(p =~= p.drop_last().push(b1));
        assert(q =~= q.drop_last().push(b2));
    }
}

/// Each recipe's label joins, with ` → `, the names on a non-empty path of the tree below
/// `path`, and its Dockerfile joins, with newlines, `lines` and the layer lines that the
/// nodes on that path add.
pub proof fn lemma_recipe_shape(
    tcs: Seq<Toolchain>,
    path: Seq<Seq<char>>,
    lines: Seq<Seq<char>>,
    ws: Workspace,
    run_detect: bool,
)
    ensures
        leaf_names(tcs, ws, run_detect).len() == leaves(tcs, path, lines, ws, run_detect).len(),
        leaf_lines(tcs, ws, run_detect).len() == leaves(tcs, path, lines, ws, run_detect).len(),
        forall|i: int|
            0 <= i < leaves(tcs, path, lines, ws, run_detect).len() ==> #[trigger] shaped(
                leaves(tcs, path, lines, ws, run_detect)[i],
                path,
                lines,
                leaf_names(tcs, ws, run_detect)[i],
                leaf_lines(tcs, ws, run_detect)[i],
            ),
{
    lemma_leaves_shape(tcs, path, lines, ws, run_detect);
}

/// Recipe labels are distinct: where sibling toolchain names differ at every level (as
/// the keys of a TOML table do) and no name holds the character `→`, no two recipes of
/// `all_recipes`, nor of `resolve_recipes`, have the same label.
pub proof fn lemma_labels_distinct(board: Board, ws: Workspace)
    requires
        names_ok(board.toolchains@),
    ensures
        forall|i: int, j: int|
            0 <= i < j < every_recipe(board, ws).len() ==> (#[trigger] every_recipe(board, ws)[i]).label
                != (#[trigger] every_recipe(board, ws)[j]).label,
        forall|i: int, j: int|
            0 <= i < j < resolved(board, ws).len() ==> (#[trigger] resolved(board, ws)[i]).label
                != (#[trigger] resolved(board, ws)[j]).label,
{
    lemma_walk_labels_distinct(board.toolchains@, seq![], seq![], ws, false);
    lemma_walk_labels_distinct(board.toolchains@, seq![], seq![], ws, true);
}

/// Recipe labels are distinct for every walk: where sibling toolchain names differ at
/// every level and no name holds `→`, the recipes below the trees `tcs`, from any path
/// and accumulated lines, with detection or without, have pairwise different labels.
pub proof fn lemma_walk_labels_distinct(
    tcs: Seq<Toolchain>,
    path: Seq<Seq<char>>,
    lines: Seq<Seq<char>>,
    ws: Workspace,
    run_detect: bool,
)
    requires
        names_ok(tcs),
    ensures
        forall|i: int, j: int|
            0 <= i < j < leaves(tcs, path, lines, ws, run_detect).len() ==> (#[trigger] leaves(
                tcs,
                path,
                lines,
                ws,
                run_detect,
            )[i]).label != (#[trigger] leaves(tcs, path, lines, ws, run_detect)[j]).label,
{
    let rs = leaves(tcs, path, lines, ws, run_detect);
    let ns = leaf_names(tcs, ws, run_detect);
    let ls = leaf_lines(tcs, ws, run_detect);
    lemma_leaves_shape(tcs, path, lines, ws, run_detect);
    lemma_leaf_names_distinct(tcs, ws, run_detect);
    assert forall|i: int, j: int| 0 <= i < j < rs.len() implies (#[trigger] rs[i]).label != (
    #[trigger] rs[j]).label by {
        assert(shaped(rs[i], path, lines, ns[i], ls[i]));
        assert(shaped(rs[j], path, lines, ns[j], ls[j]));
        assert(ns[i] != ns[j]);
        if rs[i].label == rs[j].label {
            if path.len() == 0 {
                assert(path + ns[i] =~= ns[i]);
                assert(path + ns[j] =~= ns[j]);
            } else {
                lemma_join_concat(path, ns[i]);
                lemma_join_concat(path, ns[j]);
                let pre = join(path, label_sep()) + label_sep();
                assert(join(ns[i], label_sep()) =~= (pre + join(ns[i], label_sep())).skip(pre.len() as int));
                assert(join(ns[j], label_sep()) =~= (pre + join(ns[j], label_sep())).skip(pre.len() as int));
            }
            lemma_join_injective(ns[i], ns[j]);
        }
    }
}

/// Joining two non-empty lists of names is joining each and the separator between.
proof fn lemma_join_concat(x: Seq<Seq<char>>, y: Seq<Seq<char>>)
    requires
        x.len() > 0,
        y.len() > 0,
    ensures
        join(x + y, label_sep()) == join(x, label_sep()) + label_sep() + join(y, label_sep()),
    decreases y.len(),
{
    let sep = label_sep();
    if y.len() == 1 {
        assert((x + y).drop_last() =~= x);
        assert((x + y).last() == y[0]);
    } else {
        assert((x + y).drop_last() =~= x + y.drop_last());
        assert((x + y).last() == y.last());
        lemma_join_concat(x, y.drop_last());
        assert(join(x, sep) + sep + join(y.drop_last(), sep) + sep + y.last() =~= join(x, sep) + sep + (
        join(y.drop_last(), sep) + sep + y.last()));
    }
}

/// Where a label begins with the label of `p` followed by the separator, the names of
/// the label extend `p`.
proof fn lemma_join_prefix(p: Seq<Seq<char>>, q: Seq<Seq<char>>)
    requires
        p.len() > 0,
        q.len() > 0,
        arrow_free(p),
        arrow_free(q),
        starts_with(join(q, label_sep()), join(p, label_sep()) + label_sep()),
    ensures
        p.len() < q.len(),
        q.take(p.len() as int) == p,
    decreases p.len(),
{
    reveal_strlit(" → ");
    let sep = label_sep();
    assert(sep.len() == 3 && sep[0] == ' ' && sep[1] == '→' && sep[2] == ' ');
    let s = join(p, sep) + sep;
    let t = join(q, sep);
    assert forall|i: int| 0 <= i < s.len() implies t[i] == s[i] by {
        assert(t.subrange(0, s.len() as int)[i] == t[i]);
    }
    let p0 = p[0];
    let q0 = q[0];
    assert(!p0.contains('→'));
    assert(!q0.contains('→'));
    let ghost s2: Seq<char> = if p.len() >= 2 {
        join(p.skip(1), sep) + sep
    } else {
        Seq::<char>::empty()
    };
    if p.len() >= 2 {
        lemma_join_concat(seq![p0], p.skip(1));
        assert(seq![p0] + p.skip(1) =~= p);
    }
    assert(s =~= p0 + sep + s2);
    assert(s[p0.len() + 1int] == '→');
    if q.len() == 1 {
        assert(t == q0);
        assert(q0[p0.len() + 1int] == '→');
        assert(false);
    } else {
        lemma_join_concat(seq![q0], q.skip(1));
        assert(seq![q0] + q.skip(1) =~= q);
        let t2 = join(q.skip(1), sep);
        assert(t =~= q0 + sep + t2);
        if q0.len() < p0.len() {
            let k: int = q0.len() + 1int;
            assert(t[k] == '→');
            if k == p0.len() {
                assert(s[k] == ' ');
            } else {
                assert(s[k] == p0[k]);
                assert(false);
            }
        } else if p0.len() < q0.len() {
            let k: int = p0.len() + 1int;
            assert(t[k] == '→');
            if k == q0.len() {
                assert(t[k] == ' ');
            } else {
                assert(t[k] == q0[k]);
                assert(false);
            }
        }
        assert(q0 =~= p0) by {
            assert forall|i: int| 0 <= i < q0.len() implies q0[i] == p0[i] by {
                assert(t[i] == q0[i]);
                assert(s[i] == p0[i]);
            }
        }
        if p.len() == 1 {
            assert(q.take(1) =~= p);
        } else {
            let off: int = p0.len() + 3int;
            assert forall|i: int| 0 <= i < s2.len() implies t2[i] == s2[i] by {
                assert(t[i + off] == t2[i]);
                assert(s[i + off] == s2[i]);
            }
            assert(t2.subrange(0, s2.len() as int) =~= s2);
            assert(arrow_free(p.skip(1))) by {
                assert forall|x: int| 0 <= x < p.skip(1).len() implies !(#[trigger] p.skip(1)[x]).contains(
                    '→',
                ) by {
                    assert(p.skip(1)[x] == p[x + 1]);
                }
            }
            assert(arrow_free(q.skip(1))) by {
                assert forall|x: int| 0 <= x < q.skip(1).len() implies !(#[trigger] q.skip(1)[x]).contains(
                    '→',
                ) by {
                    assert(q.skip(1)[x] == q[x + 1]);
                }
            }
            lemma_join_prefix(p.skip(1), q.skip(1));
            assert(q.take(p.len() as int) =~= seq![q0] + q.skip(1).take(p.len() - 1));
            assert(p =~= seq![p0] + p.skip(1));
        }
    }
}

/// The names `names` lead from the trees `tcs` to the node `n`: the first names a tree of
/// `tcs`, and each next one a child of the node reached so far.
pub open spec fn reaches(tcs: Seq<Toolchain>, names: Seq<Seq<char>>, n: Toolchain) -> bool
    decreases names.len(),
{
    &&& names.len() > 0
    &&& exists|k: int|
        0 <= k < tcs.len() && (#[trigger] tcs[k]).name@ == names[0] && if names.len() == 1 {
            tcs[k] == n
        } else {
            reaches(tcs[k].sub@, names.skip(1), n)
        }
}

proof fn lemma_names_ok_each(tcs: Seq<Toolchain>)
    requires
        names_ok(tcs),
    ensures
        forall|k: int| 0 <= k < tcs.len() ==> node_names_ok(#[trigger] tcs[k]),
    decreases tcs.len(),
{
    if tcs.len() > 0 {
        lemma_names_ok_each(tcs.drop_last());
        assert forall|k: int| 0 <= k < tcs.len() implies node_names_ok(#[trigger] tcs[k]) by {
            if k < tcs.len() - 1 {
                assert(tcs[k] == tcs.drop_last()[k]);
            }
        }
    }
}

proof fn lemma_reached_names_arrow_free(tcs: Seq<Toolchain>, names: Seq<Seq<char>>, n: Toolchain)
    requires
        names_ok(tcs),
        reaches(tcs, names, n),
    ensures
        arrow_free(names),
    decreases names.len(),
{
    lemma_names_ok_each(tcs);
    let k = choose|k: int|
        0 <= k < tcs.len() && (#[trigger] tcs[k]).name@ == names[0] && if names.len() == 1 {
            tcs[k] == n
        } else {
            reaches(tcs[k].sub@, names.skip(1), n)
        };
    assert(node_names_ok(tcs[k]));
    if names.len() > 1 {
        lemma_reached_names_arrow_free(tcs[k].sub@, names.skip(1), n);
        assert forall|x: int| 0 <= x < names.len() implies !(#[trigger] names[x]).contains('→') by {
            if x > 0 {
                assert(names[x] == names.skip(1)[x - 1]);
            }
        }
    }
}

/// Every node on the path of a detected recipe detects.
proof fn lemma_resolved_prefix_detects(tcs: Seq<Toolchain>, ws: Workspace, i: int, j: int, n: Toolchain)
    requires
        names_ok(tcs),
        0 <= i < leaf_names(tcs, ws, true).len(),
        1 <= j <= leaf_names(tcs, ws, true)[i].len(),
        reaches(tcs, leaf_names(tcs, ws, true)[i].take(j), n),
    ensures
        detect_holds(n.detect@, ws),
    decreases tcs,
{
    let q = leaf_names(tcs, ws, true)[i];
    let p = q.take(j);
    let last = tcs.last();
    let li: int = tcs.len() - 1;
    let d = tcs.drop_last();
    let na = leaf_names(d, ws, true);
    let nb = node_names(last, ws, true);
    assert(leaf_names(tcs, ws, true) == na + nb);
    assert(tcs[li] == last);
    lemma_leaf_names_distinct(d, ws, true);
    lemma_node_names_distinct(last, ws, true);
    let k = choose|k: int|
        0 <= k < tcs.len() && (#[trigger] tcs[k]).name@ == p[0] && if p.len() == 1 {
            tcs[k] == n
        } else {
            reaches(tcs[k].sub@, p.skip(1), n)
        };
    assert(p[0] == q[0]);
    if i < na.len() {
        assert(q == na[i]);
        let k2 = choose|k2: int| 0 <= k2 < d.len() && na[i][0] == (#[trigger] d[k2]).name@;
        assert(tcs[k2] == d[k2]);
        if k != k2 {
            if k < k2 {
                assert(tcs[k].name@ != tcs[k2].name@);
            } else {
                assert(tcs[k2].name@ != tcs[k].name@);
            }
        }
        assert(d[k] == tcs[k]);
        assert(reaches(d, p, n));
        lemma_resolved_prefix_detects(d, ws, i, j, n);
    } else {
        let i2 = i - na.len();
        assert(q == nb[i2]);
        assert(q[0] == last.name@);
        if k != li {
            assert(tcs[k].name@ != tcs[li].name@);
        }
        assert(detect_holds(last.detect@, ws));
        if j > 1 {
            match last.default_cmd {
                Some(_) => {
                    assert(nb == seq![seq![last.name@]]);
                },
                None => {
                    let sub = leaf_names(last.sub@, ws, true);
                    assert(q == seq![last.name@] + sub[i2]);
                    assert(p.skip(1) =~= sub[i2].take(j - 1));
                    assert(node_names_ok(last));
                    assert(decreases_to!(tcs => tcs[li]));
                    assert(decreases_to!(tcs[li] => tcs[li].sub));
                    assert(decreases_to!(tcs[li].sub => tcs[li].sub@));
                    lemma_resolved_prefix_detects(last.sub@, ws, i2, j - 1, n);
                },
            }
        }
    }
}

/// A failing node hides its subtree at board level: where sibling names differ at every
/// level and no name holds `→`, if the names `path` lead from the board's top level to a
/// node whose detection rules do not all hold, no recipe that `resolve_recipes` gives has
/// the label of `path` (its names joined by ` → `) or a label that begins with that label
/// followed by ` → `.
pub proof fn lemma_failing_path_hidden(board: Board, ws: Workspace, path: Seq<Seq<char>>, n: Toolchain)
    requires
        names_ok(board.toolchains@),
        reaches(board.toolchains@, path, n),
        !detect_holds(n.detect@, ws),
    ensures
        forall|i: int|
            0 <= i < resolved(board, ws).len() ==> (#[trigger] resolved(board, ws)[i]).label != join(
                path,
                label_sep(),
            ) && !starts_with(resolved(board, ws)[i].label, join(path, label_sep()) + label_sep()),
{
    let tcs = board.toolchains@;
    let rs = resolved(board, ws);
    let ns = leaf_names(tcs, ws, true);
    lemma_leaves_shape(tcs, seq![], seq![], ws, true);
    lemma_leaf_names_distinct(tcs, ws, true);
    lemma_reached_names_arrow_free(tcs, path, n);
    assert forall|i: int| 0 <= i < rs.len() implies (#[trigger] rs[i]).label != join(path, label_sep())
        && !starts_with(rs[i].label, join(path, label_sep()) + label_sep()) by {
        let q = ns[i];
        assert(shaped(rs[i], seq![], seq![], q, leaf_lines(tcs, ws, true)[i]));
        assert(Seq::<Seq<char>>::empty() + q =~= q);
        if rs[i].label == join(path, label_sep()) {
            lemma_join_injective(path, q);
            assert(q.take(path.len() as int) =~= path);
            lemma_resolved_prefix_detects(tcs, ws, i, path.len() as int, n);
        }
        if starts_with(rs[i].label, join(path, label_sep()) + label_sep()) {
            lemma_join_prefix(path, q);
            lemma_resolved_prefix_detects(tcs, ws, i, path.len() as int, n);
        }
    }
}

// ---------------------------------------------------------------------------
// What single operations do, stated over their inputs
// ---------------------------------------------------------------------------

/// `r` answers to `name`: its whole label is `name`, or the last name of its label is.
pub open spec fn named(r: RecipeModel, name: Seq<char>) -> bool {
    r.label == name || last_segment(r.label, label_sep()) == name
}

proof fn lemma_first_named(rs: Seq<RecipeModel>, name: Seq<char>, i: int)
    requires
        0 <= i < rs.len(),
        named(rs[i], name),
        forall|k: int| 0 <= k < i ==> !named(#[trigger] rs[k], name),
    ensures
        first_answering(rs, name) == Some(rs[i]),
    decreases i,
{
    if i > 0 {
        assert(!named(rs[0], name));
        assert forall|k: int| 0 <= k < i - 1 implies !named(#[trigger] rs.drop_first()[k], name) by {
            assert(rs.drop_first()[k] == rs[k + 1]);
        }
        lemma_first_named(rs.drop_first(), name, i - 1);
    }
}

proof fn lemma_none_named(rs: Seq<RecipeModel>, name: Seq<char>)
    requires
        forall|k: int| 0 <= k < rs.len() ==> !named(#[trigger] rs[k], name),
    ensures
        first_answering(rs, name) is None,
    decreases rs.len(),
{
    if rs.len() > 0 {
        assert(!named(rs[0], name));
        assert forall|k: int| 0 <= k < rs.len() - 1 implies !named(#[trigger] rs.drop_first()[k], name) by {
            assert(rs.drop_first()[k] == rs[k + 1]);
        }
        lemma_none_named(rs.drop_first(), name);
    }
}

/// A request by name prefers detected recipes: where some recipe that detection gives
/// answers to `name` (by its whole label or its last name), the request selects the
/// first such detected recipe, whatever undetected recipes come before it in tree order.
pub proof fn lemma_pick_detected_first(board: Board, name: Seq<char>, ws: Workspace, i: int)
    requires
        0 <= i < resolved(board, ws).len(),
        named(resolved(board, ws)[i], name),
        forall|k: int| 0 <= k < i ==> !named(#[trigger] resolved(board, ws)[k], name),
    ensures
        pick(board, name, ws) == Some(resolved(board, ws)[i]),
{
    lemma_first_named(resolved(board, ws), name, i);
}

/// Where no detected recipe answers to `name`, a request by name selects the first of all
/// the board's recipes, in tree order, that answers to it, and nothing where none does.
pub proof fn lemma_pick_falls_back(board: Board, name: Seq<char>, ws: Workspace)
    requires
        forall|k: int| 0 <= k < resolved(board, ws).len() ==> !named(#[trigger] resolved(board, ws)[k], name),
    ensures
        forall|i: int|
            0 <= i < every_recipe(board, ws).len() && named(every_recipe(board, ws)[i], name) && (
            forall|k: int| 0 <= k < i ==> !named(#[trigger] every_recipe(board, ws)[k], name))
                ==> pick(board, name, ws) == Some(#[trigger] every_recipe(board, ws)[i]),
        (forall|k: int|
            0 <= k < every_recipe(board, ws).len() ==> !named(#[trigger] every_recipe(board, ws)[k], name))
            ==> pick(board, name, ws) is None,
{
    lemma_none_named(resolved(board, ws), name);
    let all = every_recipe(board, ws);
    assert forall|i: int|
        0 <= i < all.len() && named(all[i], name) && (forall|k: int| 0 <= k < i ==> !named(#[trigger] all[k], name))
            implies pick(board, name, ws) == Some(#[trigger] all[i]) by {
        lemma_first_named(all, name, i);
    }
    if forall|k: int| 0 <= k < all.len() ==> !named(#[trigger] all[k], name) {
        lemma_none_named(all, name);
    }
}

proof fn lemma_pairs_absent(map: Seq<(String, String)>, k: Seq<char>)
    requires
        forall|i: int| 0 <= i < map.len() ==> (#[trigger] map[i]).0@ != k,
    ensures
        pairs_get(map, k) is None,
    decreases map.len(),
{
    if map.len() > 0 {
        assert(map[0].0@ != k);
        assert forall|i: int| 0 <= i < map.len() - 1 implies (#[trigger] map.drop_first()[i]).0@ != k by {
            assert(map.drop_first()[i] == map[i + 1]);
        }
        lemma_pairs_absent(map.drop_first(), k);
    }
}

proof fn lemma_pairs_first(map: Seq<(String, String)>, k: Seq<char>, i: int)
    requires
        0 <= i < map.len(),
        map[i].0@ == k,
        forall|j: int| 0 <= j < i ==> (#[trigger] map[j]).0@ != k,
    ensures
        pairs_get(map, k) == Some(map[i].1@),
    decreases i,
{
    if i > 0 {
        assert(map[0].0@ != k);
        assert forall|j: int| 0 <= j < i - 1 implies (#[trigger] map.drop_first()[j]).0@ != k by {
            assert(map.drop_first()[j] == map[j + 1]);
        }
        lemma_pairs_first(map.drop_first(), k, i - 1);
    }
}

/// A template variable keeps a value that its map does not list: where the rule's file
/// was read and the value under its key is `raw`, and no entry of the rule's map has the
/// key `raw` (an empty map included), the variable's value is `raw` unchanged.
pub proof fn lemma_unlisted_value_kept(rule: VarRule, ws: Workspace, text: String, raw: Seq<char>)
    requires
        read_file(ws.reads@, rule.file@) == Some(text),
        raw_var(text@, rule.key@) == Some(raw),
        forall|i: int| 0 <= i < rule.map@.len() ==> (#[trigger] rule.map@[i]).0@ != raw,
    ensures
        var_value(rule, ws) == Some(raw),
{
    lemma_pairs_absent(rule.map@, raw);
}

/// A template variable renames a value that its map lists: where the value under the
/// rule's key is `raw` and the first entry of the map with the key `raw` is at `i`, the
/// variable's value is that entry's value.
pub proof fn lemma_listed_value_renamed(rule: VarRule, ws: Workspace, text: String, raw: Seq<char>, i: int)
    requires
        read_file(ws.reads@, rule.file@) == Some(text),
        raw_var(text@, rule.key@) == Some(raw),
        0 <= i < rule.map@.len(),
        rule.map@[i].0@ == raw,
        forall|j: int| 0 <= j < i ==> (#[trigger] rule.map@[j]).0@ != raw,
    ensures
        var_value(rule, ws) == Some(rule.map@[i].1@),
{
    lemma_pairs_first(rule.map@, raw, i);
}

/// A keyed detection rule looks at every matched file: it holds exactly when its pattern
/// matched some file and some matched file, at any position, was read and mentions the
/// key.
pub proof fn lemma_keyed_rule_any_file(rule: DetectRule, ws: Workspace, key: String)
    requires
        rule.key == Some(key),
    ensures
        rule_holds(rule, ws) <==> exists|j: int|
            0 <= j < globbed(ws.matches@, rule.file@).len() && (#[trigger] globbed(ws.matches@, rule.file@)[j])
                is Some && content_mentions(globbed(ws.matches@, rule.file@)[j]->Some_0@, key@),
{
    let files = globbed(ws.matches@, rule.file@);
    if rule_holds(rule, ws) {
        let j = choose|j: int| 0 <= j < files.len() && crate::engine::matched_file_mentions(#[trigger] files[j], key@);
        assert(files[j] is Some && content_mentions(files[j]->Some_0@, key@));
    }
    if exists|j: int| 0 <= j < files.len() && (#[trigger] files[j]) is Some && content_mentions(files[j]->Some_0@, key@) {
        let j = choose|j: int| 0 <= j < files.len() && (#[trigger] files[j]) is Some && content_mentions(files[j]->Some_0@, key@);
        assert(crate::engine::matched_file_mentions(files[j], key@));
    }
}

/// A rule without a key holds exactly when its pattern matched some file.
pub proof fn lemma_unkeyed_rule(rule: DetectRule, ws: Workspace)
    requires
        rule.key is None,
    ensures
        rule_holds(rule, ws) <==> globbed(ws.matches@, rule.file@).len() > 0,
{
}

/// In a file that is neither TOML nor JSON, a key is found exactly when it occurs
/// somewhere in the whole text, on any line.
pub proof fn lemma_plain_text_search(text: Seq<char>, key: Seq<char>)
    requires
        toml_document(text) is None,
        json_document(text) is None,
    ensures
        content_mentions(text, key) <==> exists|i: int|
            0 <= i && i + key.len() <= text.len() && #[trigger] text.subrange(i, i + key.len()) == key,
{
    if content_mentions(text, key) {
        let i = choose|i: int| matches_at(text, key, i);
        assert(text.subrange(i, i + key.len()) == key);
    }
    if exists|i: int| 0 <= i && i + key.len() <= text.len() && #[trigger] text.subrange(i, i + key.len()) == key {
        let i = choose|i: int| 0 <= i && i + key.len() <= text.len() && #[trigger] text.subrange(i, i + key.len()) == key;
        assert(matches_at(text, key, i));
    }
}

/// `pre` begins `s`.
pub open spec fn begins(s: Seq<Seq<char>>, pre: Seq<Seq<char>>) -> bool {
    pre.len() <= s.len() && s.take(pre.len() as int) == pre
}

/// Each row of the chapter carries the detection rules of the whole path: every row that
/// a node at the end of a path gives lists first the rules of its ancestors (`parent`),
/// then the node's own rules, then those of the nodes below it on the way to the recipe.
pub proof fn lemma_rows_carry_ancestor_rules(
    table: Seq<(String, Document)>,
    path: Seq<Seq<char>>,
    parent: Seq<Seq<char>>,
)
    ensures
        forall|i: int|
            0 <= i < table_recipes(table, path, parent).len() ==> begins(
                (#[trigger] table_recipes(table, path, parent)[i]).1,
                parent + detect_summary(table),
            ),
    decreases table, 1nat,
{
    let combined = parent + detect_summary(table);
    let rows = table_recipes(table, path, parent);
    if crate::document::entries_get(table, "cmd"@) is Some {
        assert(rows == seq![(crate::docs::path_label(path), combined)]);
        assert(combined.take(combined.len() as int) =~= combined);
        assert forall|i: int| 0 <= i < rows.len() implies begins((#[trigger] rows[i]).1, combined) by {
            assert(rows[i].1 == combined);
        }
    } else {
        assert(rows == child_recipes(table, path, combined));
        lemma_child_rows_carry(table, path, combined);
    }
}

proof fn lemma_child_rows_carry(es: Seq<(String, Document)>, path: Seq<Seq<char>>, combined: Seq<Seq<char>>)
    ensures
        forall|i: int|
            0 <= i < child_recipes(es, path, combined).len() ==> begins(
                (#[trigger] child_recipes(es, path, combined)[i]).1,
                combined,
            ),
    decreases es, 0nat,
{
    if es.len() > 0 {
        lemma_child_rows_carry(es.drop_last(), path, combined);
        let a = child_recipes(es.drop_last(), path, combined);
        if !crate::docs::skipped_key(es.last().0@) {
            match es.last().1 {
                Document::Table(sub) => {
                    assert(decreases_to!(es => es[es.len() - 1]));
                    assert(decreases_to!(es[es.len() - 1] => es[es.len() - 1].1));
                    assert(decreases_to!(es[es.len() - 1].1 => (es[es.len() - 1].1)->Table_0));
                    assert(decreases_to!((es[es.len() - 1].1)->Table_0 => (es[es.len() - 1].1)->Table_0@));
                    let b = table_recipes(sub@, path.push(es.last().0@), combined);
                    lemma_rows_carry_ancestor_rules(sub@, path.push(es.last().0@), combined);
                    let all = child_recipes(es, path, combined);
                    assert(all == a + b);
                    assert forall|i: int| 0 <= i < all.len() implies begins((#[trigger] all[i]).1, combined) by {
                        if i < a.len() {
                            assert(all[i] == a[i]);
                        } else {
                            assert(all[i] == b[i - a.len()]);
                            let row = b[i - a.len()].1;
                            let full = combined + detect_summary(sub@);
                            assert(begins(row, full));
                            assert(row.take(combined.len() as int) =~= full.take(combined.len() as int));
                            assert(full.take(combined.len() as int) =~= combined);
                        }
                    }
                },
                _ => {
                    assert(child_recipes(es, path, combined) =~= a);
                },
            }
        } else {
            assert(child_recipes(es, path, combined) =~= a);
        }
    }
}

} // verus!
