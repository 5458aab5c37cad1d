use fork::book::{chapters_to_fill, BookItem};
use fork::commands::{image_step, ImageStep};
use fork::docs::{generate_recipes_md, ChapterError};
use fork::Recipe;

fn recipe(label: &str, dockerfile: &str) -> Recipe {
    Recipe { label: label.to_string(), dockerfile: dockerfile.to_string(), default_cmd: "make".to_string() }
}

#[test]
fn image_step_with_and_without_registry() {
    let r = recipe("rust → cargo", "FROM rust:1.80\nRUN x");
    match image_step(Some("ghcr.io/o"), "rp2040", &r) {
        Ok(ImageStep::PullOrBuildAndPush { tag, dockerfile }) => {
            assert_eq!(tag, "ghcr.io/o/rp2040/rust.cargo:1.80");
            assert_eq!(dockerfile, "FROM rust:1.80\nRUN x");
        }
        _ => panic!("expected a registry step"),
    }
    match image_step(None, "rp2040", &r) {
        Ok(ImageStep::BuildLocal { tag, dockerfile }) => {
            assert_eq!(tag, "fork-local/rp2040/rust.cargo:1.80");
            assert_eq!(dockerfile, r.dockerfile);
        }
        _ => panic!("expected a local step"),
    }
    let none = image_step(None, "rp2040", &recipe("x", "")).err().unwrap();
    assert_eq!(none.message(), "No image found");
    assert!(image_step(Some("r"), "b", &recipe("x", "")).is_err());
}

#[test]
fn pull_then_build_only_when_the_pull_failed() {
    let r = recipe("a", "FROM a:1");
    let remote = image_step(Some("reg"), "b", &r).ok().unwrap();
    assert_eq!(remote.tag(), "reg/b/a:1");
    assert!(!remote.needs_build(true));
    assert!(remote.needs_build(false));
    let local = image_step(None, "b", &r).ok().unwrap();
    assert_eq!(local.tag(), "fork-local/b/a:1");
    assert!(local.needs_build(true));
    assert!(local.needs_build(false));
}

#[test]
fn chapter_errors_come_from_the_first_faulty_board() {
    let good = "name = \"rp2040\"\n[c]\ncmd = \"make\"\n".to_string();
    assert_eq!(generate_recipes_md(&vec![good.clone(), "name = [".to_string()]), Err(ChapterError::InvalidToml));
    assert_eq!(generate_recipes_md(&vec!["name = \"éclair\"\n".to_string(), "x = [".to_string()]), Err(ChapterError::BadName));
    assert_eq!(ChapterError::InvalidToml.message(), "invalid TOML");
    assert_eq!(ChapterError::NotATable.message(), "board TOML must be a table");
    let md = generate_recipes_md(&vec![good, "[x]\ncmd = \"y\"\n".to_string()]).ok().unwrap();
    assert!(md.ends_with("## Rp2040\n\n| Recipe | Detected by |\n|--------|-------------|\n| `c` | — |\n\n## Unknown\n\n| Recipe | Detected by |\n|--------|-------------|\n| `x` | — |\n"));
    let empty = generate_recipes_md(&vec![]).ok().unwrap();
    assert_eq!(empty, "# Supported recipes\n\nEach board ships with definitions for the toolchains listed below. Fork auto-selects the right one based on your workspace files.\n");
}

fn chapter(path: Option<&str>, sub: Option<Vec<BookItem>>) -> BookItem {
    BookItem::Chapter { path: path.map(|p| p.to_string()), sub_items: sub }
}

#[test]
fn the_generated_chapter_is_found_in_the_book() {
    let book = vec![
        BookItem::Other,
        chapter(Some("intro.md"), Some(vec![chapter(Some("sub\\recipes.md"), None), chapter(Some("recipes.md"), None)])),
        chapter(Some("recipes.md"), Some(vec![chapter(Some("recipes.md"), None)])),
        chapter(Some("recipes.md"), None),
    ];
    assert_eq!(chapters_to_fill(&book, "recipes.md"), vec![vec![1, 1], vec![2]]);
    assert_eq!(chapters_to_fill(&book, "sub/recipes.md"), vec![vec![1, 0]]);
    assert_eq!(chapters_to_fill(&book, "none.md"), Vec::<Vec<usize>>::new());
    let nested = vec![chapter(None, Some(vec![chapter(Some("a\\b.md"), None)])), chapter(Some("a/b.md"), None)];
    assert_eq!(chapters_to_fill(&nested, "a/b.md"), vec![vec![0, 0], vec![1]]);
}

const TREE: &str = r#"
name = "t"

[a]
detect = [{ file = "a.txt" }]
layer = ["FROM a:1"]

[a.x]
detect = [{ file = "x.txt" }]
cmd = "x"

[a.y]
cmd = "y"

[b]
detect = [{ file = "b.txt" }]
cmd = "b"

[c]
cmd = "c"
"#;

fn present(files: &[&str]) -> fork::Workspace {
    fork::Workspace {
        matches: files
            .iter()
            .map(|f| fork::GlobMatch { pattern: f.to_string(), files: vec![Some(String::new())] })
            .collect(),
        reads: vec![],
    }
}

fn labels(rs: &[Recipe]) -> Vec<String> {
    rs.iter().map(|r| r.label.clone()).collect()
}

#[test]
fn detection_keeps_the_recipes_whose_whole_path_detects() {
    let b = fork::load_board_from_toml(TREE).ok().unwrap();
    let all = labels(&b.all_recipes(&present(&[])));
    assert_eq!(all, vec!["a → x", "a → y", "b", "c"]);
    assert_eq!(labels(&b.resolve_recipes(&present(&["a.txt", "x.txt", "b.txt"]))), vec!["a → x", "a → y", "b", "c"]);
    assert_eq!(labels(&b.resolve_recipes(&present(&["a.txt"]))), vec!["a → y", "c"]);
    // `a` fails: its subtree is hidden although `x.txt` is there.
    assert_eq!(labels(&b.resolve_recipes(&present(&["x.txt", "b.txt"]))), vec!["b", "c"]);
}

#[test]
fn all_recipes_do_not_depend_on_detection_rules() {
    let b1 = fork::load_board_from_toml(TREE).ok().unwrap();
    let other = TREE.replace("{ file = \"a.txt\" }", "{ file = \"zz\", key = \"k\" }").replace("detect = [{ file = \"b.txt\" }]\n", "");
    let b2 = fork::load_board_from_toml(&other).ok().unwrap();
    let ws = present(&["b.txt"]);
    let r1 = b1.all_recipes(&ws);
    let r2 = b2.all_recipes(&ws);
    assert_eq!(labels(&r1), labels(&r2));
    for (x, y) in r1.iter().zip(r2.iter()) {
        assert_eq!(x.dockerfile, y.dockerfile);
        assert_eq!(x.default_cmd, y.default_cmd);
    }
}

#[test]
fn labels_join_the_path_and_differ() {
    let b = fork::load_board_from_toml(TREE).ok().unwrap();
    let all = b.all_recipes(&present(&[]));
    assert_eq!(all[0].label, "a → x");
    assert_eq!(all[0].dockerfile, "FROM a:1");
    assert_eq!(all[0].default_cmd, "x");
    assert_eq!(all[2].dockerfile, "");
    let ls = labels(&all);
    for i in 0..ls.len() {
        for j in i + 1..ls.len() {
            assert_ne!(ls[i], ls[j]);
        }
    }
}

#[test]
fn no_detected_label_lies_under_a_failing_node() {
    let b = fork::load_board_from_toml(TREE).ok().unwrap();
    // `a` fails (no `a.txt`) although its child `x` would detect.
    for r in b.resolve_recipes(&present(&["x.txt", "b.txt"])) {
        assert_ne!(r.label, "a");
        assert!(!r.label.starts_with("a → "));
    }
    // With `a` detected, its subtree shows again.
    assert!(b.resolve_recipes(&present(&["a.txt", "x.txt"])).iter().any(|r| r.label.starts_with("a → ")));
}
