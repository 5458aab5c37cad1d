use fork::text::{chars_of, contains_chars, index_of_char, last_segment_chars, lines_of, replace_chars};

fn all_strings(alphabet: &[char], max_len: usize) -> Vec<String> {
    let mut out = vec![String::new()];
    let mut frontier = vec![String::new()];
    for _ in 0..max_len {
        let mut next = Vec::new();
        for s in &frontier {
            for c in alphabet {
                let mut t = s.clone();
                t.push(*c);
                next.push(t);
            }
        }
        out.extend(next.iter().cloned());
        frontier = next;
    }
    out
}

fn s(v: &[char]) -> String {
    v.iter().collect()
}

#[test]
fn replace_agrees_with_str_replace() {
    let pat = chars_of("aba");
    let rep = chars_of("X");
    for t in all_strings(&['a', 'b'], 7) {
        let out = replace_chars(&chars_of(&t), &pat, &rep);
        assert_eq!(s(&out), t.replace("aba", "X"), "{t}");
    }
}

#[test]
fn last_segment_agrees_with_split() {
    let sep = chars_of(" → ");
    for t in all_strings(&[' ', '→', 'x'], 6) {
        let out = last_segment_chars(&chars_of(&t), &sep);
        assert_eq!(s(&out), t.split(" → ").last().unwrap(), "{t:?}");
    }
}

#[test]
fn lines_agree_with_str_lines() {
    for t in all_strings(&['\n', '\r', 'a'], 6) {
        let out: Vec<String> = lines_of(&chars_of(&t)).iter().map(|l| s(l)).collect();
        let expected: Vec<String> = t.lines().map(|l| l.to_string()).collect();
        assert_eq!(out, expected, "{t:?}");
    }
}

#[test]
fn contains_and_index_agree_with_std() {
    for t in all_strings(&['a', 'b', ':'], 5) {
        let tv = chars_of(&t);
        assert_eq!(contains_chars(&tv, &chars_of("ab")), t.contains("ab"), "{t}");
        assert_eq!(index_of_char(&tv, ':'), t.chars().position(|c| c == ':'), "{t}");
    }
}
