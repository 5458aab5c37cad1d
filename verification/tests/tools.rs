use fork::builder::{choose_runtime, container_run_args, full_command, is_cargo_cmd, normalize_mount_path};
use fork::commands::bake_plan;
use fork::docs::{board_title, collect_recipes, extract_detect, generate_recipes_md};
use fork::document::Document;
use fork::text::{join_strings, str_contains};
use fork::ui::{select_recipe, SelectError, Selection, Status};
use fork::{board_from_document, get_supported_boards, load_board_from_toml, Board, GlobMatch, Workspace};

fn doc_from_toml(v: toml::Value) -> Document {
    match v {
        toml::Value::String(s) => Document::Str(s),
        toml::Value::Array(a) => Document::Array(a.into_iter().map(doc_from_toml).collect()),
        toml::Value::Table(t) => {
            Document::Table(t.into_iter().map(|(k, v)| (k, doc_from_toml(v))).collect())
        }
        _ => Document::Other,
    }
}

fn parse(src: &str) -> Document {
    doc_from_toml(src.parse::<toml::Value>().unwrap())
}

fn board(src: &str) -> Board {
    match board_from_document(&parse(src)) {
        Ok(b) => b,
        Err(_) => panic!("board did not decode"),
    }
}

fn text_file(text: &str) -> String {
    text.to_string()
}

const BOARD: &str = r#"
name = "stm32f405"

[arduino]
detect = [{ file = "*.ino" }]
layer = ["FROM arduino/arduino-cli:1.1"]
cmd = "arduino-cli compile"

[c.cmake]
detect = [{ file = "CMakeLists.txt", key = "stm32" }]
layer = ["RUN apt-get install cmake"]

[c.cmake.gcc]
layer = ["FROM gcc:13"]
cmd = "cmake --build build"

[empty]
cmd = "true"
"#;

#[test]
fn runtime_preference() {
    assert_eq!(choose_runtime(true, true).ok(), Some("podman".to_string()));
    assert_eq!(choose_runtime(false, true).ok(), Some("docker".to_string()));
    let e = choose_runtime(false, false).err().unwrap();
    assert_eq!(e.message(), "Neither podman nor docker found. Please install one to use fork.");
}

#[test]
fn cargo_commands() {
    assert!(is_cargo_cmd("cargo build"));
    assert!(is_cargo_cmd(" \t\u{3000}cargo test --release"));
    assert!(!is_cargo_cmd("cargo"));
    assert!(!is_cargo_cmd("make cargo build"));
}

#[test]
fn mount_paths() {
    assert_eq!(normalize_mount_path("C:\\work\\fw", true), "C:/work/fw");
    assert_eq!(normalize_mount_path("/home/u/a\\b", false), "/home/u/a\\b");
}

#[test]
fn commands_and_run_arguments() {
    assert_eq!(full_command("cargo build", &vec![]), "cargo build");
    assert_eq!(
        full_command("cargo build", &vec!["--release".to_string(), "-v".to_string()]),
        "cargo build --release -v"
    );
    let args = container_run_args("/p", "img:1", "make", Some(("1000".to_string(), "100".to_string())));
    assert_eq!(
        args,
        vec!["run", "--rm", "--user", "1000:100", "-v", "/p:/project", "-w", "/project", "img:1", "sh", "-c", "make"]
    );
    let args = container_run_args("/p", "img", "ls", None);
    assert_eq!(args, vec!["run", "--rm", "-v", "/p:/project", "-w", "/project", "img", "sh", "-c", "ls"]);
}

#[test]
fn status_symbols() {
    assert_eq!(Status::Done.symbol(), "✓");
    assert_eq!(Status::Info.symbol(), "→");
    assert_eq!(Status::Warn.symbol(), "!");
    assert_eq!(Status::Error.symbol(), "✗");
}

#[test]
fn selection_by_override_or_detection() {
    let b = board(BOARD);
    let none = Workspace { matches: vec![], reads: vec![] };
    match select_recipe(&b, &none, Some("gcc")) {
        Ok(Selection::Named(r)) => assert_eq!(r.label, "c → cmake → gcc"),
        _ => panic!("expected the named recipe"),
    }
    match select_recipe(&b, &none, Some("zephyr")) {
        Err(SelectError::NotFound(e)) => assert_eq!(e.available, "arduino, c → cmake → gcc, empty"),
        _ => panic!("expected not found"),
    }
    match select_recipe(&b, &none, None) {
        Ok(Selection::Detected(r)) => assert_eq!(r.label, "empty"),
        _ => panic!("expected the one detected recipe"),
    }
    let ino = Workspace {
        matches: vec![GlobMatch { pattern: "*.ino".to_string(), files: vec![Some(text_file("void setup(){}"))] }],
        reads: vec![],
    };
    // Two recipes are detected: the first in tree order wins.
    match select_recipe(&b, &ino, None) {
        Ok(Selection::Detected(r)) => assert_eq!(r.label, "arduino"),
        _ => panic!("expected the first detected recipe"),
    }
    let bare = board("name = \"bare\"\n[x]\ndetect = [{ file = \"nothing\" }]\ncmd = \"c\"\n[y]\ndetect = [{ file = \"none\" }]\ncmd = \"d\"\n");
    match select_recipe(&bare, &none, None) {
        Err(e) => {
            assert!(matches!(e, SelectError::NoMatch { .. }));
            assert_eq!(e.message(), "No toolchain detected for 'bare'. Available: x, y");
        }
        _ => panic!("expected an error listing the recipes"),
    }
    let empty = board("name = \"nothing\"\n");
    match select_recipe(&empty, &none, None) {
        Err(e) => assert_eq!(e.message(), "No toolchains configured for nothing."),
        _ => panic!("expected an error"),
    }
}

#[test]
fn bake_plan_skips_empty_dockerfiles() {
    let b = board(BOARD);
    let plan = bake_plan(&b, &Workspace { matches: vec![], reads: vec![] }, "ghcr.io/o");
    assert_eq!(
        plan,
        vec![
            ("ghcr.io/o/stm32f405/arduino:1.1".to_string(), "FROM arduino/arduino-cli:1.1".to_string()),
            ("ghcr.io/o/stm32f405/c.cmake.gcc:13".to_string(), "RUN apt-get install cmake\nFROM gcc:13".to_string()),
        ]
    );
}

#[test]
fn supported_boards_from_texts() {
    let boards = get_supported_boards(&vec![BOARD.to_string(), "name = \"x\"\n".to_string()]).ok().unwrap();
    assert_eq!(boards.len(), 2);
    assert_eq!(boards[0].name, "stm32f405");
    assert_eq!(boards[1].name, "x");
    assert!(get_supported_boards(&vec![BOARD.to_string(), "n = 1\n".to_string()]).is_err());
    assert!(get_supported_boards(&vec!["name = ".to_string()]).is_err());
    assert_eq!(get_supported_boards(&vec![]).ok().map(|b| b.len()), Some(0));
}

#[test]
fn boards_load_from_toml_text() {
    let b = load_board_from_toml(BOARD).ok().unwrap();
    assert_eq!(b.name, "stm32f405");
    assert_eq!(b.toolchains.len(), 3);
    let e = load_board_from_toml("name = [").err().unwrap();
    assert_eq!(e.message(), "Failed to parse board TOML");
    assert!(load_board_from_toml("{\"name\": \"json\"}").is_err());
}

#[test]
fn titles() {
    assert_eq!(board_title("rp2040"), "Rp2040");
    assert_eq!(board_title("esp32-c3"), "Esp32-c3");
    assert_eq!(board_title("1x"), "1x");
    assert_eq!(board_title(""), "");
}

#[test]
fn detection_summaries() {
    let doc = parse("detect = [{ file = \"a\", key = \"k\" }, { file = \"b\" }, { file = 3 }, \"c\", { file = \"d\", key = 1 }]\n");
    match doc {
        Document::Table(es) => assert_eq!(
            extract_detect(&es),
            vec!["`a` contains `k`", "`b` exists", "`d` exists"]
        ),
        _ => panic!(),
    }
}

#[test]
fn recipe_rows_for_the_chapter() {
    match parse(BOARD) {
        Document::Table(es) => {
            let rows = collect_recipes(&es, &vec![], &vec![]);
            assert_eq!(
                rows,
                vec![
                    ("arduino".to_string(), vec!["`*.ino` exists".to_string()]),
                    ("c → cmake → gcc".to_string(), vec!["`CMakeLists.txt` contains `stm32`".to_string()]),
                    ("empty".to_string(), vec![]),
                ]
            );
        }
        _ => panic!(),
    }
    match parse("cmd = \"x\"\ndetect = [{ file = \"f\" }]\n") {
        Document::Table(es) => {
            assert_eq!(collect_recipes(&es, &vec![], &vec![]), vec![("default".to_string(), vec!["`f` exists".to_string()])]);
        }
        _ => panic!(),
    }
}

#[test]
fn the_supported_recipes_chapter() {
    let md = generate_recipes_md(&vec![BOARD.to_string()]).ok().unwrap();
    assert_eq!(
        md,
        "# Supported recipes\n\nEach board ships with definitions for the toolchains listed below. Fork auto-selects the right one based on your workspace files.\n\n## Stm32f405\n\n| Recipe | Detected by |\n|--------|-------------|\n| `arduino` | `*.ino` exists |\n| `c → cmake → gcc` | `CMakeLists.txt` contains `stm32` |\n| `empty` | — |\n"
    );
}

#[test]
fn text_helpers() {
    assert_eq!(join_strings(&vec!["a".to_string(), "b".to_string()], " → "), "a → b");
    assert_eq!(join_strings(&vec![], ", "), "");
    assert!(str_contains("abc", ""));
    assert!(str_contains("abcabd", "abd"));
    assert!(!str_contains("ab", "abc"));
}
