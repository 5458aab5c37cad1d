use fork::document::Document;
use fork::engine::{file_contains_key, matches_detect, resolve_layer, resolve_var, DetectRule, VarRule};
use fork::{board_from_document, image_tag, load_board_from_toml, Board, FileRead, GlobMatch, LayerCmd, Recipe, Workspace};

fn doc_from_toml(v: toml::Value) -> Document {
    match v {
        toml::Value::String(s) => Document::Str(s),
        toml::Value::Array(a) => Document::Array(a.into_iter().map(doc_from_toml).collect()),
        toml::Value::Table(t) => {
            Document::Table(t.into_iter().map(|(k, v)| (k, doc_from_toml(v))).collect())
        }
        _ => Document::Other,
    }
}

fn content(text: &str) -> String {
    text.to_string()
}

fn board(src: &str) -> Board {
    match load_board_from_toml(src) {
        Ok(b) => b,
        Err(_) => panic!("board did not decode"),
    }
}

const RP2040: &str = r#"
name = "rp2040"

[rust]
detect = [{ file = "Cargo.toml", key = "edition" }]
layer  = [{ cmd = "FROM rust:${var}", var = { file = "rust-toolchain.toml", key = "channel", map = { "stable" = "1.76" } } }]

[rust.cargo.rustc.thumbv6mnonenabi]
detect = [{ file = ".cargo/config.toml", key = "thumbv6m-none-eabi" }]
layer  = ["RUN rustup target add thumbv6m-none-eabi", "RUN cargo install flip-link"]
cmd    = "cargo build"

[arduino]
detect = [{ file = "*.ino" }]
layer  = ["FROM arduino/arduino-cli:latest"]
cmd    = "arduino-cli compile"
"#;

fn rust_workspace() -> Workspace {
    Workspace {
        matches: vec![
            GlobMatch {
                pattern: "Cargo.toml".to_string(),
                files: vec![Some(content("[package]\nname = \"blink\"\nedition = \"2021\"\n"))],
            },
            GlobMatch {
                pattern: ".cargo/config.toml".to_string(),
                files: vec![Some(content("[build]\ntarget = \"thumbv6m-none-eabi\"\n"))],
            },
            GlobMatch { pattern: "*.ino".to_string(), files: vec![] },
        ],
        reads: vec![FileRead {
            file: "rust-toolchain.toml".to_string(),
            content: Some(content("[toolchain]\nchannel = \"stable\"\n")),
        }],
    }
}

fn labels(rs: &[Recipe]) -> Vec<String> {
    rs.iter().map(|r| r.label.clone()).collect()
}

#[test]
fn resolves_the_documented_rust_path() {
    let b = board(RP2040);
    let ws = rust_workspace();
    let rs = b.resolve_recipes(&ws);
    assert_eq!(rs.len(), 1);
    assert_eq!(rs[0].label, "rust → cargo → rustc → thumbv6mnonenabi");
    assert_eq!(
        rs[0].dockerfile,
        "FROM rust:1.76\nRUN rustup target add thumbv6m-none-eabi\nRUN cargo install flip-link"
    );
    assert_eq!(rs[0].default_cmd, "cargo build");
}

#[test]
fn all_recipes_ignore_detection() {
    let b = board(RP2040);
    let ws = rust_workspace();
    let all = b.all_recipes(&ws);
    assert_eq!(labels(&all), vec!["arduino", "rust → cargo → rustc → thumbv6mnonenabi"]);
    let empty = Workspace { matches: vec![], reads: ws.reads };
    let all_again = b.all_recipes(&empty);
    assert_eq!(labels(&all_again), labels(&all));
    assert_eq!(all_again[1].dockerfile, all[1].dockerfile);
}

#[test]
fn resolved_recipes_are_among_all_recipes() {
    let b = board(RP2040);
    let ws = rust_workspace();
    let all = labels(&b.all_recipes(&ws));
    for r in b.resolve_recipes(&ws) {
        assert!(all.contains(&r.label));
    }
}

#[test]
fn nothing_detected_in_an_empty_project() {
    let b = board(RP2040);
    let ws = Workspace { matches: vec![], reads: vec![] };
    assert!(b.resolve_recipes(&ws).is_empty());
    let all = b.all_recipes(&ws);
    assert_eq!(all[1].dockerfile, "FROM rust:latest\nRUN rustup target add thumbv6m-none-eabi\nRUN cargo install flip-link");
}

#[test]
fn detection_needs_every_rule() {
    let mut ws = rust_workspace();
    ws.matches[1].files = vec![Some(content("[build]\ntarget = \"thumbv7em-none-eabihf\"\n"))];
    let b = board(RP2040);
    assert!(b.resolve_recipes(&ws).is_empty());
}

#[test]
fn a_rule_without_key_needs_only_a_match() {
    let rule = DetectRule { file: "*.ino".to_string(), key: None };
    let ws = Workspace {
        matches: vec![GlobMatch { pattern: "*.ino".to_string(), files: vec![None] }],
        reads: vec![],
    };
    assert!(matches_detect(&vec![rule], &ws));
    assert!(matches_detect(&vec![], &ws));
    let keyed = DetectRule { file: "*.ino".to_string(), key: Some("setup".to_string()) };
    assert!(!matches_detect(&vec![keyed], &ws));
}

#[test]
fn key_search_in_toml_json_and_text() {
    let toml_file = "[dependencies]\nembassy-nrf = \"0.1\"\n";
    assert!(file_contains_key(toml_file, "embassy-nrf"));
    assert!(file_contains_key(toml_file, "0.1"));
    assert!(!file_contains_key(toml_file, "dependencies.embassy"));
    // Parsed as TOML, a key is looked up in the document, not in the raw text.
    assert!(!file_contains_key(toml_file, "= \"0.1\""));
    let json_file = "{\"a\": [{\"b\": \"pico_sdk_init\"}], \"n\": 3}";
    assert!(file_contains_key(json_file, "pico_sdk"));
    assert!(file_contains_key(json_file, "b"));
    assert!(!file_contains_key(json_file, "3"));
    assert!(!file_contains_key(json_file, "\"n\": 3"));
    let text_file = "import machine\nprint(1)\n";
    assert!(file_contains_key(text_file, "import machine"));
    assert!(!file_contains_key(text_file, "import board"));
}

#[test]
fn template_values_are_found_renamed_or_defaulted() {
    let ws = rust_workspace();
    let var = VarRule {
        file: "rust-toolchain.toml".to_string(),
        key: "channel".to_string(),
        map: vec![],
    };
    assert_eq!(resolve_var(&var, &ws), Some("stable".to_string()));
    let renamed = VarRule { map: vec![("stable".to_string(), "1.80".to_string())], ..var };
    assert_eq!(resolve_var(&renamed, &ws), Some("1.80".to_string()));
    let missing = VarRule { file: "nope.toml".to_string(), key: "channel".to_string(), map: vec![] };
    assert_eq!(resolve_var(&missing, &ws), None);
    let layer = LayerCmd::Templated { cmd: "FROM rust:${var} # ${var}".to_string(), var: missing };
    assert_eq!(resolve_layer(&layer, &ws), "FROM rust:latest # latest");
    let literal = LayerCmd::Literal("RUN make ${var}".to_string());
    assert_eq!(resolve_layer(&literal, &ws), "RUN make ${var}");
}

#[test]
fn lookup_takes_the_nearest_table_first() {
    let doc = doc_from_toml("x = { channel = \"deep\" }\nchannel = 7\n".parse::<toml::Value>().unwrap());
    assert_eq!(doc.lookup(&"channel".to_string()), None);
    let doc = doc_from_toml("a = { channel = \"first\" }\nb = { channel = \"second\" }\n".parse::<toml::Value>().unwrap());
    assert_eq!(doc.lookup(&"channel".to_string()), Some("first".to_string()));
}

#[test]
fn recipe_by_name_or_last_segment() {
    let b = board(RP2040);
    let ws = rust_workspace();
    let r = b.get_recipe_by_path("thumbv6mnonenabi", &ws).ok().unwrap();
    assert_eq!(r.label, "rust → cargo → rustc → thumbv6mnonenabi");
    let r = b.get_recipe_by_path("arduino", &ws).ok().unwrap();
    assert_eq!(r.default_cmd, "arduino-cli compile");
    let r = b.get_recipe_by_path("rust → cargo → rustc → thumbv6mnonenabi", &ws).ok().unwrap();
    assert_eq!(r.default_cmd, "cargo build");
}

#[test]
fn unknown_recipe_lists_what_is_available() {
    let b = board(RP2040);
    let ws = rust_workspace();
    let e = b.get_recipe_by_path("esp", &ws).err().unwrap();
    assert_eq!(e.available, "arduino, rust → cargo → rustc → thumbv6mnonenabi");
    assert_eq!(
        e.message(),
        "Recipe 'esp' not found for 'rp2040'. Available: arduino, rust → cargo → rustc → thumbv6mnonenabi"
    );
}

fn recipe(label: &str, dockerfile: &str) -> Recipe {
    Recipe { label: label.to_string(), dockerfile: dockerfile.to_string(), default_cmd: "make".to_string() }
}

#[test]
fn image_tag_from_the_documentation() {
    let r = recipe(
        "rust → cargo → rustc → thumbv6mnonenabi",
        "FROM rust:1.76\nRUN rustup target add thumbv6m-none-eabi",
    );
    assert_eq!(
        image_tag(Some("ghcr.io/your-org"), "rp2040", &r),
        "ghcr.io/your-org/rp2040/rust.cargo.rustc.thumbv6mnonenabi:1.76"
    );
}

#[test]
fn image_tag_defaults() {
    assert_eq!(image_tag(None, "esp32", &recipe("arduino", "FROM arduino/cli")), "fork-local/esp32/arduino:latest");
    assert_eq!(image_tag(None, "b", &recipe("a", "RUN x")), "fork-local/b/a:latest");
    assert_eq!(image_tag(None, "b", &recipe("a", "")), "fork-local/b/a:latest");
    assert_eq!(image_tag(None, "b", &recipe("a", "RUN x\r\nFROM img:1.2:extra\r\nFROM other:9")), "fork-local/b/a:1.2");
    assert_eq!(image_tag(None, "b", &recipe("a", "FROM img:3.1\r\n")), "fork-local/b/a:3.1");
    assert_eq!(image_tag(None, "b", &recipe("a", " FROM img:3\nFROM x:4")), "fork-local/b/a:4");
}

#[test]
fn board_documents_that_do_not_decode() {
    let bad = [
        "[rust]\ncmd = \"x\"\n",
        "name = 3\n",
        "name = \"b\"\n[rust]\ndetect = \"Cargo.toml\"\n",
        "name = \"b\"\nrust = \"x\"\n",
        "name = \"b\"\n[rust]\nname = \"inner\"\n",
        "name = \"b\"\n[rust]\nlayer = [[\"x\"]]\n",
        "name = \"b\"\n[rust]\ndetect = [[\"a\", \"b\", \"c\"]]\n",
        "name = \"b\"\n[rust]\nlayer = [{ cmd = \"FROM x\" }]\n",
    ];
    for src in bad {
        let doc = doc_from_toml(src.parse::<toml::Value>().unwrap());
        assert!(board_from_document(&doc).is_err(), "{src}");
    }
}

#[test]
fn board_documents_in_array_form() {
    let src = "name = \"b\"\n[rust]\ndetect = [[\"Cargo.toml\"], [\"a.toml\", \"k\"]]\nlayer = [{ cmd = \"FROM r:${var}\", var = [\"f\", \"k\", { a = \"b\" }] }]\ncmd = \"c\"\n";
    let b = board(src);
    let tc = &b.toolchains[0];
    assert_eq!(tc.name, "rust");
    assert_eq!(tc.detect.len(), 2);
    assert_eq!(tc.detect[0].file, "Cargo.toml");
    assert_eq!(tc.detect[0].key, None);
    assert_eq!(tc.detect[1].key, Some("k".to_string()));
    match &tc.layer[0] {
        LayerCmd::Templated { cmd, var } => {
            assert_eq!(cmd, "FROM r:${var}");
            assert_eq!(var.map, vec![("a".to_string(), "b".to_string())]);
        }
        LayerCmd::Literal(_) => panic!("expected a template"),
    }
    assert_eq!(tc.default_cmd, Some("c".to_string()));
    assert_eq!(b.detect_patterns(), vec!["Cargo.toml".to_string(), "a.toml".to_string()]);
    assert_eq!(b.template_files(), vec!["f".to_string()]);
}

#[test]
fn a_node_with_a_command_is_a_leaf() {
    let src = "name = \"b\"\n[a]\ncmd = \"top\"\n[a.b]\ncmd = \"below\"\n";
    let b = board(src);
    let rs = b.all_recipes(&Workspace { matches: vec![], reads: vec![] });
    assert_eq!(labels(&rs), vec!["a"]);
    assert_eq!(rs[0].dockerfile, "");
}

const MY_BOARD: &str = r#"
name = "my-board"

[rust]
detect = [{ file = "Cargo.toml", key = "edition" }]
layer  = [{ cmd = "FROM rust:${var}", var = { file = "rust-toolchain.toml", key = "channel" } }]

[rust.cargo.rustc.thumbv7emnoneeabihf.myhal]
detect = [{ file = "Cargo.toml", key = "my-hal" }]
layer  = [
    "RUN rustup target add thumbv7em-none-eabihf",
    "RUN cargo install flip-link",
]
cmd = "cargo build --release"

[arduino]
detect = [{ file = "*.ino" }]
layer  = ["FROM arduino/arduino-cli:latest"]
cmd    = "arduino-cli compile --fqbn vendor:core:myboard --output-dir build ."
"#;

#[test]
fn layers_accumulate_from_the_root_down() {
    let b = board(MY_BOARD);
    let ws = Workspace {
        matches: vec![GlobMatch {
            pattern: "Cargo.toml".to_string(),
            files: vec![Some(content("[package]\nedition = \"2021\"\n[dependencies]\nmy-hal = \"1\"\n"))],
        }],
        reads: vec![FileRead {
            file: "rust-toolchain.toml".to_string(),
            content: Some(content("[toolchain]\nchannel = \"1.80\"\n")),
        }],
    };
    let rs = b.resolve_recipes(&ws);
    assert_eq!(labels(&rs), vec!["rust → cargo → rustc → thumbv7emnoneeabihf → myhal"]);
    assert_eq!(
        rs[0].dockerfile,
        "FROM rust:1.80\nRUN rustup target add thumbv7em-none-eabihf\nRUN cargo install flip-link"
    );
    assert_eq!(rs[0].default_cmd, "cargo build --release");
    assert_eq!(b.detect_patterns(), vec!["*.ino", "Cargo.toml", "Cargo.toml"]);
}

#[test]
fn detection_that_holds_everywhere_keeps_all() {
    let b = board("name = \"b\"\n[a]\ncmd = \"x\"\n[c.d]\nlayer = [\"L\"]\ncmd = \"y\"\n");
    let ws = Workspace { matches: vec![], reads: vec![] };
    assert_eq!(labels(&b.resolve_recipes(&ws)), labels(&b.all_recipes(&ws)));
}

fn std_tag(registry: Option<&str>, board: &str, r: &Recipe) -> String {
    let ns = registry.unwrap_or("fork-local");
    let version = r
        .dockerfile
        .lines()
        .find_map(|line| line.strip_prefix("FROM "))
        .and_then(|img| img.split(':').nth(1))
        .unwrap_or("latest");
    format!("{}/{}/{}:{}", ns, board, r.label.replace(" → ", "."), version)
}

#[test]
fn image_tags_agree_with_the_std_reading() {
    let tokens = ["FROM ", "x", ":", "\n", "\r", " → "];
    let mut texts = vec![String::new()];
    let mut frontier = vec![String::new()];
    for _ in 0..5 {
        let mut next = Vec::new();
        for t in &frontier {
            for tok in tokens {
                next.push(format!("{t}{tok}"));
            }
        }
        texts.extend(next.iter().cloned());
        frontier = next;
    }
    for t in &texts {
        let r = recipe(t, t);
        assert_eq!(image_tag(Some("reg"), "b", &r), std_tag(Some("reg"), "b", &r), "{t:?}");
    }
}
